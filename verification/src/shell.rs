use vstd::prelude::*;

use crate::scanner::{spec_str_eq_ci, str_eq_ci};
use crate::text::str_eq;
use crate::view::SortBy;
use vstd::utf8::encode_utf8;

verus! {

/// Which store a memory command addresses.
#[derive(Clone, Copy, Debug, PartialEq, Eq, Structural)]
pub enum MemoryType {
    Factual,
    Episodic,
    Semantic,
    Working,
}

impl MemoryType {
    /// The word the store is named by.
    pub fn as_str(&self) -> (r: &'static str)
        ensures
            *self == MemoryType::Factual ==> r@ == "factual"@,
            *self == MemoryType::Episodic ==> r@ == "episodic"@,
            *self == MemoryType::Semantic ==> r@ == "semantic"@,
            *self == MemoryType::Working ==> r@ == "working"@,
    {
        match self {
            MemoryType::Factual => "factual",
            MemoryType::Episodic => "episodic",
            MemoryType::Semantic => "semantic",
            MemoryType::Working => "working",
        }
    }
}

/// One parsed interactive command; the caller carries it out.
pub enum ShellCommand {
    Empty,
    List { path: String, long: bool, reverse: bool },
    View { path: String, browser: bool, long: bool, sort: SortBy, reverse: bool },
    ViewMissingFile,
    Memory,
    Unknown(String),
}

/// One of the two spellings occurs among the words.
pub open spec fn spec_has_flag(args: Seq<String>, f1: Seq<char>, f2: Seq<char>) -> bool {
    exists|i: int| 0 <= i < args.len() && ((#[trigger] args[i])@ == f1 || args[i]@ == f2)
}

/// Whether one of the two spellings occurs among the words.
fn has_flag(args: &Vec<String>, f1: &str, f2: &str) -> (r: bool)
    ensures
        r == spec_has_flag(args@, f1@, f2@),
{
    let n: usize = args.len();
    let mut i: usize = 0;
    while i < n
        invariant
            n == args@.len(),
            0 <= i <= n,
            forall|k: int| 0 <= k < i ==> (#[trigger] args@[k])@ != f1@ && args@[k]@ != f2@,
        decreases n - i,
    {
        if str_eq(args[i].as_str(), f1) || str_eq(args[i].as_str(), f2) {
            assert(args@[i as int]@ == f1@ || args@[i as int]@ == f2@);
            return true;
        }
        i = i + 1;
    }
    false
}

/// First position, from `i` on, holding one of the two spellings.
pub open spec fn spec_find_flag(args: Seq<String>, f1: Seq<char>, f2: Seq<char>, i: int) -> Option<
    int,
>
    decreases args.len() - i,
{
    if i < 0 || i >= args.len() {
        None
    } else if args[i]@ == f1 || args[i]@ == f2 {
        Some(i)
    } else {
        spec_find_flag(args, f1, f2, i + 1)
    }
}

/// First position holding one of the two spellings.
fn find_flag(args: &Vec<String>, f1: &str, f2: &str) -> (r: Option<usize>)
    ensures
        match r {
            Some(i) => i < args@.len() && spec_find_flag(args@, f1@, f2@, 0) == Some(i as int),
            None => spec_find_flag(args@, f1@, f2@, 0) is None,
        },
{
    let n: usize = args.len();
    let mut i: usize = 0;
    while i < n
        invariant
            n == args@.len(),
            0 <= i <= n,
            spec_find_flag(args@, f1@, f2@, 0) == spec_find_flag(args@, f1@, f2@, i as int),
        decreases n - i,
    {
        if str_eq(args[i].as_str(), f1) || str_eq(args[i].as_str(), f2) {
            return Some(i);
        }
        i = i + 1;
    }
    None
}

/// The order named after a `--sort`/`-s` word: `size` or `modified` in
/// any ASCII case; anything else, or nothing, names the default.
pub open spec fn spec_sort_arg(args: Seq<String>) -> SortBy {
    match spec_find_flag(args, "--sort"@, "-s"@, 0) {
        None => SortBy::Name,
        Some(i) => {
            if i + 1 < args.len() {
                if spec_str_eq_ci(encode_utf8(args[i + 1]@), encode_utf8("size"@)) {
                    SortBy::Size
                } else if spec_str_eq_ci(encode_utf8(args[i + 1]@), encode_utf8("modified"@)) {
                    SortBy::Modified
                } else {
                    SortBy::Name
                }
            } else {
                SortBy::Name
            }
        },
    }
}

/// The first word is one of the two spellings.
pub open spec fn spec_is_word(args: Seq<String>, w1: Seq<char>, w2: Seq<char>) -> bool {
    args.len() > 0 && (args[0]@ == w1 || args[0]@ == w2)
}

/// The listing path: the second word where one stands, the current
/// directory otherwise.
pub open spec fn spec_arg_or_dot(args: Seq<String>) -> Seq<char> {
    if args.len() >= 2 {
        args[1]@
    } else {
        "."@
    }
}

/// Reads one interactive command from its words: a listing, a view
/// with its flags and sort order, the memory command, nothing, or an
/// unknown word handed back for the error message.
pub fn parse_shell_command(args: &Vec<String>) -> (r: ShellCommand)
    ensures
        ({
            if args@.len() == 0 {
                r is Empty
            } else if spec_is_word(args@, "list"@, "ls"@) {
                r matches ShellCommand::List { path, long, reverse } && path@ == spec_arg_or_dot(
                    args@,
                ) && long == spec_has_flag(args@, "-l"@, "--long"@) && reverse == spec_has_flag(
                    args@,
                    "-r"@,
                    "--reverse"@,
                )
            } else if spec_is_word(args@, "view"@, "open"@) {
                if args@.len() >= 2 {
                    r matches ShellCommand::View { path, browser, long, sort, reverse } && path@
                        == args@[1]@ && browser == spec_has_flag(args@, "-b"@, "--browser"@)
                        && long == spec_has_flag(args@, "-l"@, "--long"@) && sort == spec_sort_arg(
                        args@,
                    ) && reverse == spec_has_flag(args@, "-r"@, "--reverse"@)
                } else {
                    r is ViewMissingFile
                }
            } else if spec_is_word(args@, "memory"@, "mem"@) {
                r is Memory
            } else {
                r matches ShellCommand::Unknown(w) && w@ == args@[0]@
            }
        }),
{
    if args.len() == 0 {
        return ShellCommand::Empty;
    }
    if str_eq(args[0].as_str(), "list") || str_eq(args[0].as_str(), "ls") {
        let path: String = if args.len() >= 2 {
            args[1].clone()
        } else {
            ".".to_owned()
        };
        ShellCommand::List {
            path,
            long: has_flag(args, "-l", "--long"),
            reverse: has_flag(args, "-r", "--reverse"),
        }
    } else if str_eq(args[0].as_str(), "view") || str_eq(args[0].as_str(), "open") {
        if args.len() >= 2 {
            let sort: SortBy = match find_flag(args, "--sort", "-s") {
                Some(i) => {
                    if i + 1 < args.len() {
                        if str_eq_ci(args[i + 1].as_str(), "size") {
                            SortBy::Size
                        } else if str_eq_ci(args[i + 1].as_str(), "modified") {
                            SortBy::Modified
                        } else {
                            SortBy::Name
                        }
                    } else {
                        SortBy::Name
                    }
                },
                None => SortBy::Name,
            };
            ShellCommand::View {
                path: args[1].clone(),
                browser: has_flag(args, "-b", "--browser"),
                long: has_flag(args, "-l", "--long"),
                sort,
                reverse: has_flag(args, "-r", "--reverse"),
            }
        } else {
            ShellCommand::ViewMissingFile
        }
    } else if str_eq(args[0].as_str(), "memory") || str_eq(args[0].as_str(), "mem") {
        ShellCommand::Memory
    } else {
        ShellCommand::Unknown(args[0].clone())
    }
}

} // verus!
