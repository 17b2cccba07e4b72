//! The command-line interface that a completion script is written for: a tree of
//! commands, each with its options, flags and positional arguments.
use vstd::prelude::*;

verus! {

/// What kind of value an argument takes, which decides how zsh completes it.
#[derive(Clone, Copy, Debug, PartialEq, Eq, Structural)]
pub enum ValueHint {
    Unknown,
    Other,
    AnyPath,
    FilePath,
    DirPath,
    ExecutablePath,
    CommandName,
    CommandString,
    CommandWithArguments,
    Username,
    Hostname,
    Url,
    EmailAddress,
}

/// An argument that another one conflicts with, as the command line spells it.
pub struct Switch {
    pub short: Option<char>,
    pub long: Option<String>,
}

/// One argument of a command.
pub struct Arg {
    pub name: String,
    pub help: Option<String>,
    pub short: Option<char>,
    pub long: Option<String>,
    /// `None` where the argument has no short aliases at all, visible or not.
    pub visible_short_aliases: Option<Vec<char>>,
    /// `None` where the argument lists no possible values.
    pub possible_values: Option<Vec<String>>,
    pub value_hint: ValueHint,
    pub multiple_occurrences: bool,
    pub multiple_values: bool,
    pub required: bool,
    pub global: bool,
    /// The arguments this one conflicts with, as each command reports them, from the
    /// argument's own command up: entry 0 as its own command reports them, entry `k` as
    /// the command `k` levels above it; `None` where that command cannot tell them.
    pub conflicts: Vec<Option<Vec<Switch>>>,
}

/// A command, with its arguments and subcommands.
pub struct App {
    pub name: String,
    /// The full space-separated name by which the command is called (`git remote add`).
    pub bin_name: Option<String>,
    pub about: Option<String>,
    pub visible_aliases: Vec<String>,
    /// Arguments that take a value and are not positional.
    pub opts: Vec<Arg>,
    /// Arguments that take no value and are not positional.
    pub flags: Vec<Arg>,
    pub positionals: Vec<Arg>,
    pub subcommands: Vec<App>,
}

/// The binary name of `p`, or the empty string where it has none.
pub open spec fn bin_or_empty(p: App) -> Seq<char> {
    match p.bin_name {
        Some(b) => b@,
        None => Seq::empty(),
    }
}

/// The number of commands in the tree rooted at `p`.
pub open spec fn size(p: App) -> nat
    decreases p,
{
    1 + size_list(p.subcommands@)
}

/// The number of commands in the trees of `s`.
pub open spec fn size_list(s: Seq<App>) -> nat
    decreases s,
{
    if s.len() == 0 {
        0
    } else {
        size(s[0]) + size_list(s.drop_first())
    }
}

/// Every command of the tree rooted at `p` has a binary name.
pub open spec fn all_bin_names(p: App) -> bool
    decreases p,
{
    &&& p.bin_name is Some
    &&& all_bin_names_list(p.subcommands@)
}

/// Every command of the trees of `s` has a binary name.
pub open spec fn all_bin_names_list(s: Seq<App>) -> bool
    decreases s,
{
    s.len() > 0 ==> all_bin_names(s[0]) && all_bin_names_list(s.drop_first())
}

/// The first command in preorder of the tree rooted at `p` whose binary name (or the
/// empty string, where it has none) is `b`.
pub open spec fn find_by_bin_name(p: App, b: Seq<char>) -> Option<App>
    decreases p,
{
    if bin_or_empty(p) == b {
        Some(p)
    } else {
        find_in_list(p.subcommands@, b)
    }
}

/// The first command in preorder of the trees of `s` whose binary name is `b`.
pub open spec fn find_in_list(s: Seq<App>, b: Seq<char>) -> Option<App>
    decreases s,
{
    if s.len() == 0 {
        None
    } else {
        match find_by_bin_name(s[0], b) {
            Some(q) => Some(q),
            None => find_in_list(s.drop_first(), b),
        }
    }
}

/// The route from `p` down to what `find_by_bin_name(p, b)` finds: the index of the
/// subcommand taken at each level. Its length is the number of levels descended.
pub open spec fn found_path(p: App, b: Seq<char>) -> Seq<usize>
    decreases size(p), 0nat,
{
    if bin_or_empty(p) == b {
        Seq::empty()
    } else {
        path_in_list(p.subcommands@, b, 0)
    }
}

/// The route down to what the search of the trees `s[i]`, `s[i + 1]`, ... finds: the
/// index in `s` of the first tree in which the search finds something, then the route
/// within that tree.
pub open spec fn path_in_list(s: Seq<App>, b: Seq<char>, i: nat) -> Seq<usize>
    decreases size_list(s), s.len() - i,
{
    if i >= s.len() {
        Seq::empty()
    } else {
        proof {
            lemma_size_list_elem(s, i as int);
        }
        if find_by_bin_name(s[i as int], b) is Some {
            seq![i as usize] + found_path(s[i as int], b)
        } else {
            path_in_list(s, b, i + 1)
        }
    }
}

/// The trees of a list are smaller than the list.
pub proof fn lemma_size_list_elem(s: Seq<App>, i: int)
    requires
        0 <= i < s.len(),
    ensures
        size(s[i]) <= size_list(s),
        all_bin_names_list(s) ==> all_bin_names(s[i]),
    decreases s.len(),
{
    if i > 0 {
        lemma_size_list_elem(s.drop_first(), i - 1);
    }
}

/// What the search finds carries the binary name searched for, lies in the tree, and is
/// the root or smaller than it.
pub proof fn lemma_find_found(p: App, b: Seq<char>)
    ensures
        find_by_bin_name(p, b) matches Some(q) ==> {
            &&& bin_or_empty(q) == b
            &&& (q == p || size(q) < size(p))
            &&& (all_bin_names(p) ==> all_bin_names(q))
        },
    decreases p,
{
    if bin_or_empty(p) != b {
        lemma_find_list_found(p.subcommands@, b);
    }
}

/// What the search of a list finds carries the name searched for and is smaller than
/// the list.
pub proof fn lemma_find_list_found(s: Seq<App>, b: Seq<char>)
    ensures
        find_in_list(s, b) matches Some(q) ==> {
            &&& bin_or_empty(q) == b
            &&& size(q) < 1 + size_list(s)
            &&& (all_bin_names_list(s) ==> all_bin_names(q))
        },
    decreases s,
{
    if s.len() > 0 {
        lemma_find_found(s[0], b);
        if find_by_bin_name(s[0], b) is None {
            lemma_find_list_found(s.drop_first(), b);
        }
    }
}

/// The search of a list finds something when the search of one of its trees does.
pub proof fn lemma_find_list_some(s: Seq<App>, i: int, b: Seq<char>)
    requires
        0 <= i < s.len(),
        find_by_bin_name(s[i], b) is Some,
    ensures
        find_in_list(s, b) is Some,
    decreases s.len(),
{
    if i > 0 && find_by_bin_name(s[0], b) is None {
        lemma_find_list_some(s.drop_first(), i - 1, b);
        assert(s.drop_first()[i - 1] == s[i]);
    }
}

/// Each direct subcommand of `p` is found by its binary name.
pub proof fn lemma_find_child(p: App, i: int)
    requires
        0 <= i < p.subcommands@.len(),
    ensures
        find_by_bin_name(p, bin_or_empty(p.subcommands@[i])) is Some,
{
    let b = bin_or_empty(p.subcommands@[i]);
    if bin_or_empty(p) != b {
        lemma_find_list_some(p.subcommands@, i, b);
    }
}

} // verus!
