//! The commands and their arguments, and the shells that completion scripts
//! can be generated for.

use vstd::prelude::*;
use vstd::string::StringExecFns;
use crate::text::{chars_equal, chars_of};

verus! {

/// The parsed command line.
pub struct Cli {
    pub command: Command,
}

/// The commands.
pub enum Command {
    /// Fetch route and show danger rating per hop
    Travel(TravelArgs),
    /// Fetch market prices for items
    Price(PriceArgs),
    /// Pilot intel and kill history
    Intel(IntelArgs),
    /// System overview
    System(SystemArgs),
    /// Wormhole sites for a class
    Wh(WhArgs),
    /// EVE server status
    Status,
    /// Generate shell completion scripts
    Generate(GenerateArgs),
}

/// Arguments of `generate`: the shell to write completions for.
pub struct GenerateArgs {
    pub shell: String,
}

/// Arguments of `travel`.
#[derive(Clone)]
pub struct TravelArgs {
    pub origin: String,
    pub destination: String,
    /// The look-back window for kills, in hours (1 by default).
    pub hours: u32,
    pub route: RouteFlag,
}

/// Arguments of `price`.
#[derive(Clone)]
pub struct PriceArgs {
    pub item: Option<String>,
    pub quantity: Option<u32>,
    /// A tab-separated list of items and quantities.
    pub file: Option<String>,
    pub buy: bool,
    pub sell: bool,
    /// The market region id (10000002, The Forge, by default).
    pub region: String,
}

/// Arguments of `intel`.
pub struct IntelArgs {
    pub pilot: String,
}

/// Arguments of `system`.
pub struct SystemArgs {
    pub name: String,
}

/// Arguments of `wh`.
pub struct WhArgs {
    pub class: String,
    pub wh_type: WhType,
}

/// The routing preference of `travel`.
#[derive(Clone, Copy, Debug, PartialEq, Eq, Structural)]
pub enum RouteFlag {
    /// Shortest route (default)
    Shortest,
    /// Prefer high-sec systems
    Safest,
    /// Only high-sec systems
    Secure,
    /// Prefer low-sec systems
    Insecure,
}

impl Default for RouteFlag {
    fn default() -> (r: RouteFlag)
        ensures
            r == RouteFlag::Shortest,
    {
        RouteFlag::Shortest
    }
}

/// The kind of wormhole sites to list.
#[derive(Clone, Copy, Debug, PartialEq, Eq, Structural)]
pub enum WhType {
    All,
    Combat,
    Relic,
    Gas,
}

impl Default for WhType {
    fn default() -> (r: WhType)
        ensures
            r == WhType::All,
    {
        WhType::All
    }
}

/// The shells that completion scripts can be generated for.
#[derive(Clone, Copy, Debug, PartialEq, Eq, Structural)]
pub enum ShellKind {
    Bash,
    Zsh,
    Fish,
    PowerShell,
    Elvish,
}

/// The shell a name stands for: exactly "bash", "zsh", "fish",
/// "powershell" or "elvish".
pub open spec fn shell_named(name: Seq<char>) -> Option<ShellKind> {
    if name == "bash"@ {
        Some(ShellKind::Bash)
    } else if name == "zsh"@ {
        Some(ShellKind::Zsh)
    } else if name == "fish"@ {
        Some(ShellKind::Fish)
    } else if name == "powershell"@ {
        Some(ShellKind::PowerShell)
    } else if name == "elvish"@ {
        Some(ShellKind::Elvish)
    } else {
        None
    }
}

fn is_word(cs: &Vec<char>, word: &str) -> (b: bool)
    ensures
        b == (cs@ == word@),
{
    let w = chars_of(word);
    chars_equal(cs, &w)
}

/// The shell to generate completions for, or nothing for an unsupported name.
pub fn completion_shell(name: &str) -> (r: Option<ShellKind>)
    ensures
        r == shell_named(name@),
{
    let cs = chars_of(name);
    if is_word(&cs, "bash") {
        Some(ShellKind::Bash)
    } else if is_word(&cs, "zsh") {
        Some(ShellKind::Zsh)
    } else if is_word(&cs, "fish") {
        Some(ShellKind::Fish)
    } else if is_word(&cs, "powershell") {
        Some(ShellKind::PowerShell)
    } else if is_word(&cs, "elvish") {
        Some(ShellKind::Elvish)
    } else {
        None
    }
}

/// The error shown for an unsupported shell name.
pub fn unsupported_shell_message(name: &str) -> (m: String)
    ensures
        m@ == "Unsupported shell: "@ + name@ + ". Use bash, zsh, fish, powershell, or elvish"@,
{
    let mut m = String::from_str("Unsupported shell: ");
    m.append(name);
    m.append(". Use bash, zsh, fish, powershell, or elvish");
    m
}

} // verus!
