//! The decisions of the interactive session: what a typed line asks for, whether a command may
//! go to the connected device, and the small texts around them.

use vstd::prelude::*;
use vstd::string::{StringExecFns, StrSliceExecFns};

verus! {

/// The words that `shell_words::split` makes of a line, or `None` where it refuses the line
/// (a quote left open).
pub uninterp spec fn shell_split(line: Seq<char>) -> Option<Seq<Seq<char>>>;

/// The texts of a list of strings.
pub open spec fn words_view(words: Seq<String>) -> Seq<Seq<char>> {
    words.map_values(|w: String| w@)
}

/// Splits a line into words by the rules of a POSIX shell, with `shell_words::split`.
///
/// The contract claims only that the result is the one `shell_words::split` gives for the line:
/// its words, or `None` where it returns an error.
#[verifier::external_body]
fn split_words(line: &str) -> (r: Option<Vec<String>>)
    ensures
        match r {
            Some(words) => shell_split(line@) == Some(words_view(words@)),
            None => shell_split(line@) is None,
        },
{
    match shell_words::split(line) {
        Ok(words) => Some(words),
        Err(_) => None,
    }
}

/// What a line typed in the interactive session asks for.
#[derive(Debug, Clone)]
pub enum ReplInput {
    /// Nothing: no words, or a line that cannot be split.
    Empty,
    /// Leave the session (`exit` or `quit`).
    Exit,
    /// Show the help text.
    Help,
    /// Connect to the device whose address follows, if one does.
    Connect(Option<String>),
    /// Disconnect from the current device.
    Disconnect,
    /// A device command, as the argument list of the command-line tool (program name first).
    Command(Vec<String>),
}

/// The program name put in front of a device command's words.
pub open spec fn program_name() -> Seq<char> {
    "cgd1"@
}

/// Whether `r` is what the words of a line ask for.
pub open spec fn asks_for(words: Seq<Seq<char>>, r: ReplInput) -> bool {
    if words.len() == 0 {
        r is Empty
    } else if words[0] == "exit"@ || words[0] == "quit"@ {
        r is Exit
    } else if words[0] == "help"@ {
        r is Help
    } else if words[0] == "connect"@ {
        match r {
            ReplInput::Connect(address) => if words.len() >= 2 {
                address is Some && address->0@ == words[1]
            } else {
                address is None
            },
            _ => false,
        }
    } else if words[0] == "disconnect"@ {
        r is Disconnect
    } else {
        match r {
            ReplInput::Command(args) => words_view(args@) == seq![program_name()] + words,
            _ => false,
        }
    }
}

/// What the words of a line ask for.
pub fn classify_words(words: Vec<String>) -> (r: ReplInput)
    ensures
        asks_for(words_view(words@), r),
{
    if words.len() == 0 {
        return ReplInput::Empty;
    }
    let first = &words[0];
    if *first == String::from_str("exit") || *first == String::from_str("quit") {
        ReplInput::Exit
    } else if *first == String::from_str("help") {
        ReplInput::Help
    } else if *first == String::from_str("connect") {
        if words.len() >= 2 {
            ReplInput::Connect(Some(words[1].clone()))
        } else {
            ReplInput::Connect(None)
        }
    } else if *first == String::from_str("disconnect") {
        ReplInput::Disconnect
    } else {
        let mut args: Vec<String> = Vec::new();
        args.push(String::from_str("cgd1"));
        let mut i: usize = 0;
        while i < words.len()
            invariant
                i <= words@.len(),
                words_view(args@) == seq![program_name()] + words_view(words@).take(i as int),
            decreases words@.len() - i,
        {
            let ghost before = args@;
            let w = words[i].clone();
            args.push(w);
            proof {
                assert(words_view(args@) =~= words_view(before).push(words@[i as int]@));
                assert(words_view(words@).take(i as int + 1) =~= words_view(words@).take(i as int).push(words@[i as int]@));
                assert(words_view(args@) =~= seq![program_name()] + words_view(words@).take(i as int + 1));
            }
            i = i + 1;
        }
        proof {
            assert(words_view(words@).take(words@.len() as int) =~= words_view(words@));
        }
        ReplInput::Command(args)
    }
}

/// What a line typed in the interactive session asks for; a line that cannot be split asks for
/// nothing.
pub fn parse_repl_line(line: &str) -> (r: ReplInput)
    ensures
        match shell_split(line@) {
            Some(words) => asks_for(words, r),
            None => r is Empty,
        },
{
    match split_words(line) {
        Some(words) => classify_words(words),
        None => ReplInput::Empty,
    }
}

/// Whether a device command may go to the connected device.
#[derive(Debug, Clone, Copy, PartialEq, Eq, Structural)]
pub enum DeviceTarget {
    /// The command targets the connected device.
    Ready,
    /// Another device is connected: its address.
    OtherDevice(u64),
    /// No device is connected.
    NotConnected,
}

/// Whether a command for `target` may go to the connected device, if any.
pub fn require_device(connected: Option<u64>, target: u64) -> (r: DeviceTarget)
    ensures
        r == match connected {
            Some(a) => if a == target { DeviceTarget::Ready } else { DeviceTarget::OtherDevice(a) },
            None => DeviceTarget::NotConnected,
        },
{
    match connected {
        Some(a) => if a == target { DeviceTarget::Ready } else { DeviceTarget::OtherDevice(a) },
        None => DeviceTarget::NotConnected,
    }
}

/// The log filter for a verbosity count (`-v`, `-vv`, `-vvv`).
pub open spec fn log_filter_spec(verbose: u8) -> Seq<char> {
    if verbose == 0 {
        "warn"@
    } else if verbose == 1 {
        "info"@
    } else if verbose == 2 {
        "debug"@
    } else {
        "trace"@
    }
}

/// The log filter for a verbosity count: warnings only by default, more with each `-v`.
pub fn log_filter(verbose: u8) -> (r: &'static str)
    ensures
        r@ == log_filter_spec(verbose),
{
    match verbose {
        0 => "warn",
        1 => "info",
        2 => "debug",
        _ => "trace",
    }
}

/// The text with every `:` replaced by `_`.
pub open spec fn colons_to_underscores(s: Seq<char>) -> Seq<char> {
    s.map_values(|c: char| if c == ':' { '_' } else { c })
}

/// The name of the file that holds a device's token: its address text with `:` made `_`.
pub fn token_file_name(address: &str) -> (r: String)
    ensures
        r@ == colons_to_underscores(address@),
{
    let n = address.unicode_len();
    let mut r = String::new();
    let mut i: usize = 0;
    while i < n
        invariant
            n == address@.len(),
            i <= n,
            r@ == colons_to_underscores(address@.take(i as int)),
        decreases n - i,
    {
        let c = address.get_char(i);
        if c == ':' {
            r.append("_");
            proof {
                reveal_strlit("_");
            }
        } else {
            let piece = address.substring_char(i, i + 1);
            r.append(piece);
            proof {
                assert(piece@ =~= seq![c]);
            }
        }
        proof {
            assert(address@.take(i as int + 1) =~= address@.take(i as int).push(c));
            assert(colons_to_underscores(address@.take(i as int + 1)) =~=
                colons_to_underscores(address@.take(i as int)).push(if c == ':' { '_' } else { c }));
        }
        i = i + 1;
    }
    proof {
        assert(address@.take(n as int) =~= address@);
    }
    r
}

} // verus!
