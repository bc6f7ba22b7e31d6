//! Market prices: what the `price` command is asked to do, and the item list
//! file it can read.

use vstd::prelude::*;
use vstd::string::StringExecFns;
use crate::cli::PriceArgs;
use crate::text::{
    chars_between, chars_of, find_char, find_from, lemma_find_from, parse_i64, parse_u32_chars, parsed_i64, parsed_u32,
    string_of, trim_chars, trimmed,
};

verus! {

/// One entry of an item list: an item name and a quantity.
pub struct PriceItem {
    pub name: String,
    pub quantity: u32,
}

/// A line without the '\r' that ends it, if any.
pub open spec fn without_cr(line: Seq<char>) -> Seq<char> {
    if line.len() > 0 && line.last() == '\r' {
        line.drop_last()
    } else {
        line
    }
}

/// The lines of `s` from position `pos` on, as `str::lines` gives them: split
/// after each '\n', the '\n' (and a '\r' just before it) removed; a final
/// line needs no terminator, and no empty line follows a final terminator.
pub open spec fn lines_from(s: Seq<char>, pos: int) -> Seq<Seq<char>>
    decreases s.len() - pos,
{
    if pos < 0 || pos >= s.len() {
        Seq::empty()
    } else {
        let k = find_from(s, '\n', pos);
        proof {
            lemma_find_from(s, '\n', pos);
        }
        if k < s.len() {
            seq![without_cr(s.subrange(pos, k))] + lines_from(s, k + 1)
        } else {
            seq![s.subrange(pos, s.len() as int)]
        }
    }
}

/// The quantity written in a field: its value when it reads as a `u32`,
/// otherwise 1.
pub open spec fn quantity_of(field: Seq<char>) -> u32 {
    match parsed_u32(trimmed(field)) {
        Some(q) => q,
        None => 1,
    }
}

/// The entry a line of an item list stands for.  Once trimmed, an empty line
/// or one that starts with '#' is skipped, and so is a line without a tab;
/// otherwise the text before the first tab is the name and the field after
/// it (up to the next tab) the quantity.
pub open spec fn list_entry(line: Seq<char>) -> Option<(Seq<char>, u32)> {
    let t = trimmed(line);
    if t.len() == 0 || t[0] == '#' {
        None
    } else {
        let tab = find_from(t, '\t', 0);
        if tab >= t.len() {
            None
        } else {
            let end = find_from(t, '\t', tab + 1);
            Some((t.subrange(0, tab), quantity_of(t.subrange(tab + 1, end))))
        }
    }
}

/// The entries of an item list, in file order.
pub open spec fn price_list(content: Seq<char>) -> Seq<(Seq<char>, u32)> {
    lines_from(content, 0).filter_map(|line: Seq<char>| list_entry(line))
}

/// The name and quantity of each entry.
pub open spec fn items_view(items: Seq<PriceItem>) -> Seq<(Seq<char>, u32)> {
    items.map_values(|it: PriceItem| (it.name@, it.quantity))
}

/// The entry of the line `cs[from..to]`.
fn read_entry(cs: &Vec<char>, from: usize, to: usize) -> (r: Option<PriceItem>)
    requires
        from <= to <= cs.len(),
    ensures
        match list_entry(cs@.subrange(from as int, to as int)) {
            Some(e) => r matches Some(it) && it.name@ == e.0 && it.quantity == e.1,
            None => r is None,
        },
{
    let t = trim_chars(cs, from, to);
    if t.len() == 0 || t[0] == '#' {
        return None;
    }
    let tab = find_char(&t, '\t', 0);
    if tab >= t.len() {
        return None;
    }
    let end = find_char(&t, '\t', tab + 1);
    let name_chars = chars_between(&t, 0, tab);
    let field = chars_between(&t, tab + 1, end);
    let f = trim_chars(&field, 0, field.len());
    assert(field@.subrange(0, field@.len() as int) =~= field@);
    let quantity = match parse_u32_chars(&f, 0, f.len()) {
        Some(q) => q,
        None => 1,
    };
    assert(f@.subrange(0, f@.len() as int) =~= f@);
    Some(PriceItem { name: string_of(&name_chars), quantity })
}

/// The entries of an item list: one per line with a tab, as `list_entry`
/// reads it, in file order.
pub fn parse_price_list(content: &str) -> (items: Vec<PriceItem>)
    ensures
        items_view(items@) == price_list(content@),
{
    let cs = chars_of(content);
    let ghost s = cs@;
    let ghost f = |line: Seq<char>| list_entry(line);
    let ghost mut done: Seq<Seq<char>> = Seq::empty();
    let mut items: Vec<PriceItem> = Vec::new();
    let mut pos: usize = 0;
    while pos < cs.len()
        invariant
            s == cs@,
            pos <= cs.len(),
            f == (|line: Seq<char>| list_entry(line)),
            lines_from(s, 0) == done + lines_from(s, pos as int),
            items_view(items@) == done.filter_map(f),
        decreases cs.len() - pos,
    {
        let k = find_char(&cs, '\n', pos);
        let end = if k < cs.len() && k > pos && cs[k - 1] == '\r' {
            k - 1
        } else {
            k
        };
        let ghost line = if k < cs.len() {
            without_cr(s.subrange(pos as int, k as int))
        } else {
            s.subrange(pos as int, s.len() as int)
        };
        assert(cs@.subrange(pos as int, end as int) =~= line);
        let next: usize = if k < cs.len() {
            k + 1
        } else {
            cs.len()
        };
        assert(lines_from(s, pos as int) =~= seq![line] + lines_from(s, next as int));
        let entry = read_entry(&cs, pos, end);
        let ghost before = items@;
        let ghost new_done = done.push(line);
        assert(new_done.drop_last() =~= done);
        match entry {
            Some(it) => {
                items.push(it);
                assert(items_view(items@) =~= items_view(before).push(list_entry(line).unwrap()));
                assert(new_done.filter_map(f) =~= done.filter_map(f) + seq![list_entry(line).unwrap()]);
            },
            None => {
                assert(new_done.filter_map(f) =~= done.filter_map(f));
            },
        }
        proof {
            assert(done + lines_from(s, pos as int) =~= new_done + lines_from(s, next as int));
            done = new_done;
        }
        pos = next;
    }
    assert(lines_from(s, pos as int) =~= Seq::<Seq<char>>::empty());
    assert(done + Seq::<Seq<char>>::empty() =~= done);
    items
}

/// What `price` is asked to do.
pub enum PricePlan {
    /// Price every entry of an item list file.
    List { path: String, region_id: i64 },
    /// Price one item, in a quantity.
    Single { item: String, quantity: u32, region_id: i64, show_sell: bool, show_buy: bool },
}

/// Why `price` cannot start.
#[derive(Clone, Copy, Debug, PartialEq, Eq, Structural)]
pub enum PriceError {
    /// The region is not a decimal `i64`.
    InvalidRegion,
    /// Neither an item nor a list file was given.
    ItemRequired,
}

impl PriceError {
    /// The message shown for the error.
    pub fn message(&self) -> (m: String)
        ensures
            m@ == (match self {
                PriceError::InvalidRegion => "Invalid region ID"@,
                PriceError::ItemRequired => "Item name required"@,
            }),
    {
        match self {
            PriceError::InvalidRegion => String::from_str("Invalid region ID"),
            PriceError::ItemRequired => String::from_str("Item name required"),
        }
    }
}

/// What `price` does with its arguments: the region must read as an `i64`;
/// then a list file, when given, is priced; otherwise the item is priced in
/// the given quantity (1 by default), showing the sell price unless only buy
/// prices are asked for and the buy price unless only sell prices are.
pub fn plan(args: PriceArgs) -> (r: Result<PricePlan, PriceError>)
    ensures
        match parsed_i64(args.region@) {
            None => r == Err::<PricePlan, PriceError>(PriceError::InvalidRegion),
            Some(region) => match args.file {
                Some(path) => r matches Ok(PricePlan::List { path: p, region_id })
                    && p@ == path@ && region_id == region,
                None => match args.item {
                    None => r == Err::<PricePlan, PriceError>(PriceError::ItemRequired),
                    Some(item) => r matches Ok(PricePlan::Single { item: i, quantity, region_id, show_sell, show_buy })
                        && i@ == item@ && region_id == region && quantity == (match args.quantity {
                        Some(q) => q,
                        None => 1u32,
                    }) && show_sell == !args.buy && show_buy == !args.sell,
                },
            },
        },
{
    let region_id = match parse_i64(args.region.as_str()) {
        Some(r) => r,
        None => return Err(PriceError::InvalidRegion),
    };
    match args.file {
        Some(path) => Ok(PricePlan::List { path, region_id }),
        None => match args.item {
            None => Err(PriceError::ItemRequired),
            Some(item) => {
                let quantity = match args.quantity {
                    Some(q) => q,
                    None => 1,
                };
                Ok(PricePlan::Single { item, quantity, region_id, show_sell: !args.buy, show_buy: !args.sell })
            },
        },
    }
}

} // verus!
