//! The zsh completion script of a command tree.
use vstd::prelude::*;
use crate::args::{args_text, can_tell_conflicts, conflicts_known, get_args_of, levels, nonempty,
    push_nonempty};
use crate::escape::{bracket_escape, escape_brackets, escaped_brackets};
use crate::model::{
    all_bin_names,
    all_bin_names_list,
    bin_or_empty,
    find_by_bin_name,
    find_in_list,
    found_path,
    path_in_list,
    lemma_find_child,
    lemma_find_found,
    lemma_find_list_found,
    lemma_find_list_some,
    lemma_size_list_elem,
    size,
    App,
};
use crate::order::{equal_text, key_lt, key_views, lemma_key_lt_order, lemma_sorted_distinct, sort_distinct,
    sorted_distinct, Key};
use crate::text::{
    chars_of,
    flat_map_chars,
    lemma_flat_map_escapes,
    lemma_flat_map_identity,
    lemma_flat_map_injective,
    decimal,
    decimal_string,
    from_literal,
    join,
    join_strings,
    lemma_views_push,
    replace,
    replace_char,
    string_of,
    views,
};

verus! {

/// The message of a lookup that cannot fail.
const INTERNAL_ERROR_MSG: &'static str = "Fatal internal error. Please consider filing a bug report at https://github.com/clap-rs/clap/issues";

/// The zsh shell, for which completion scripts are written.
pub struct Zsh;

/// The help of a command, or nothing.
pub open spec fn about_or_empty(sc: App) -> Seq<char> {
    match sc.about {
        Some(a) => a@,
        None => Seq::empty(),
    }
}

/// The entry of a subcommand under one of its names: `"{name}:{help}" \`.
pub open spec fn subcommand_entry(sc: App, n: Seq<char>) -> Seq<char> {
    "\""@ + n + ":"@ + escaped_brackets(about_or_empty(sc)) + "\" \\"@
}

/// The entries of a subcommand: under its name, then under each visible alias.
pub open spec fn subcommand_entries(sc: App) -> Seq<Seq<char>> {
    seq![subcommand_entry(sc, sc.name@)] + views(sc.visible_aliases@).map_values(
        |a: Seq<char>| subcommand_entry(sc, a),
    )
}

/// The entries of a list of subcommands.
pub open spec fn subcommands_entries(s: Seq<App>) -> Seq<Seq<char>>
    decreases s.len(),
{
    if s.len() == 0 {
        Seq::empty()
    } else {
        subcommands_entries(s.drop_last()) + subcommand_entries(s.last())
    }
}

/// The entries of the subcommands of `p`, one per line.
pub open spec fn subcommands_text(p: App) -> Seq<char> {
    join(subcommands_entries(p.subcommands@), "\n"@)
}

/// The entry of a subcommand whose help holds no bracket carries that help as it is,
/// quotes and backslashes included.
pub proof fn lemma_subcommand_entry_keeps_help(sc: App, n: Seq<char>)
    requires
        !about_or_empty(sc).contains('['),
        !about_or_empty(sc).contains(']'),
    ensures
        subcommand_entry(sc, n) == "\""@ + n + ":"@ + about_or_empty(sc) + "\" \\"@,
{
    let a = about_or_empty(sc);
    let f = |c: char| bracket_escape(c);
    assert forall|i: int| 0 <= i < a.len() implies f(#[trigger] a[i]) == seq![a[i]] by {
        assert(a.contains(a[i]));
    }
    lemma_flat_map_identity(a, f);
}

/// In the entry of a subcommand, every bracket of the help follows a backslash; and
/// helps that differ give entries that differ.
pub proof fn lemma_subcommand_entry_brackets(sc: App, other: App, n: Seq<char>)
    ensures
        forall|i: int|
            0 <= i < escaped_brackets(about_or_empty(sc)).len() && (#[trigger] escaped_brackets(
                about_or_empty(sc),
            )[i] == '[' || escaped_brackets(about_or_empty(sc))[i] == ']') ==> i > 0
                && escaped_brackets(about_or_empty(sc))[i - 1] == '\\',
        subcommand_entry(sc, n) == subcommand_entry(other, n) ==> about_or_empty(sc)
            == about_or_empty(other),
{
    let f = |c: char| bracket_escape(c);
    let special = |x: char| x == '[' || x == ']';
    let a = about_or_empty(sc);
    assert forall|c: char, i: int|
        0 <= i < f(c).len() && special(#[trigger] f(c)[i]) implies i > 0 && f(c)[i - 1] == '\\' by {}
    lemma_flat_map_escapes(a, f, special);
    assert forall|i: int|
        0 <= i < escaped_brackets(a).len() && (#[trigger] escaped_brackets(a)[i] == '['
            || escaped_brackets(a)[i] == ']') implies i > 0 && escaped_brackets(a)[i - 1] == '\\' by {
        assert(special(flat_map_chars(a, f)[i]));
    }
    if subcommand_entry(sc, n) == subcommand_entry(other, n) {
        let b = about_or_empty(other);
        let pre = "\""@ + n + ":"@;
        let post = "\" \\"@;
        let x = escaped_brackets(a);
        let y = escaped_brackets(b);
        assert(pre + x + post == pre + y + post);
        assert((pre + x + post).len() == (pre + y + post).len());
        assert(x =~= (pre + x + post).subrange(pre.len() as int, (pre.len() + x.len()) as int));
        assert(y =~= (pre + y + post).subrange(pre.len() as int, (pre.len() + y.len()) as int));
        assert forall|c: char| (#[trigger] f(c)).len() > 0 && f(c).last() == c by {}
        lemma_flat_map_injective(a, b, f);
    }
}

/// The subcommand list of a command with one subcommand, which has no visible alias, is
/// that subcommand's entry under its name.
pub proof fn lemma_subcommands_text_single(p: App)
    requires
        p.subcommands@.len() == 1,
        p.subcommands@[0].visible_aliases@.len() == 0,
    ensures
        subcommands_text(p) == subcommand_entry(p.subcommands@[0], p.subcommands@[0].name@),
{
    let s = p.subcommands@;
    assert(s.drop_last() =~= Seq::<App>::empty());
    assert(subcommands_entries(s.drop_last()) =~= Seq::<Seq<char>>::empty());
    assert(views(s[0].visible_aliases@) =~= Seq::<Seq<char>>::empty());
    assert(subcommand_entries(s[0]) =~= seq![subcommand_entry(s[0], s[0].name@)]);
    assert(subcommands_entries(s) =~= seq![subcommand_entry(s[0], s[0].name@)]);
}

/// Appends the entry of `sc` under the name `n`.
fn add_sc(sc: &App, n: &str, ret: &mut Vec<String>)
    ensures
        views(final(ret)@) == views(old(ret)@).push(subcommand_entry(*sc, n@)),
{
    let help = match &sc.about {
        Some(a) => escape_brackets(a.as_str()),
        None => escape_brackets(""),
    };
    let mut s = from_literal("\"");
    s.append(n);
    s.append(":");
    s.append(help.as_str());
    s.append("\" \\");
    proof {
        reveal_strlit("");
        assert(s@ =~= subcommand_entry(*sc, n@));
        lemma_views_push(ret@, s);
    }
    ret.push(s);
}

/// The subcommands of `p` as `_describe` lists them: each under its name and its
/// visible aliases, with its help.
pub fn subcommands_of(p: &App) -> (res: String)
    ensures
        res@ == subcommands_text(*p),
{
    let mut ret: Vec<String> = Vec::new();
    let n = p.subcommands.len();
    let mut i: usize = 0;
    while i < n
        invariant
            n == p.subcommands.len(),
            0 <= i <= n,
            views(ret@) == subcommands_entries(p.subcommands@.take(i as int)),
        decreases n - i,
    {
        let sc = &p.subcommands[i];
        let ghost start = views(ret@);
        add_sc(sc, sc.name.as_str(), &mut ret);
        let m = sc.visible_aliases.len();
        let ghost entries = views(sc.visible_aliases@).map_values(
            |a: Seq<char>| subcommand_entry(*sc, a),
        );
        let mut j: usize = 0;
        while j < m
            invariant
                m == sc.visible_aliases.len(),
                entries == views(sc.visible_aliases@).map_values(
                    |a: Seq<char>| subcommand_entry(*sc, a),
                ),
                0 <= j <= m,
                views(ret@) == start.push(subcommand_entry(*sc, sc.name@)) + entries.take(j as int),
            decreases m - j,
        {
            add_sc(sc, sc.visible_aliases[j].as_str(), &mut ret);
            proof {
                assert(views(sc.visible_aliases@)[j as int] == sc.visible_aliases@[j as int]@);
                assert(entries.take(j + 1) =~= entries.take(j as int).push(entries[j as int]));
            }
            j = j + 1;
        }
        proof {
            assert(entries.take(m as int) =~= entries);
            let t = p.subcommands@.take(i + 1);
            assert(t.drop_last() =~= p.subcommands@.take(i as int));
            assert(t.last() == *sc);
            assert(views(ret@) =~= start + subcommand_entries(*sc));
        }
        i = i + 1;
    }
    assert(p.subcommands@.take(n as int) =~= p.subcommands@);
    join_strings(&ret, "\n")
}

/// Whether the binary name of `p` (or the empty string, where it has none) is `bin_name`.
pub fn has_bin_name(p: &App, bin_name: &str) -> (r: bool)
    ensures
        r == (bin_or_empty(*p) == bin_name@),
{
    match &p.bin_name {
        Some(b) => equal_text(bin_name, b.as_str()),
        None => {
            let r = bin_name.is_empty();
            proof {
                if r {
                    assert(bin_name@ =~= Seq::<char>::empty());
                }
            }
            r
        },
    }
}

/// Finds the command of the tree of `p` whose binary name is `bin_name`: given the
/// binary name `a b c` and the command for `a` (or `b`), this returns the command for `c`.
pub fn parser_of<'a>(p: &'a App, bin_name: &str) -> (res: Option<&'a App>)
    ensures
        res matches Some(q) ==> find_by_bin_name(*p, bin_name@) == Some(*q),
        res is None ==> find_by_bin_name(*p, bin_name@) is None,
{
    match locate(p, bin_name) {
        Some((q, _)) => Some(q),
        None => None,
    }
}

/// Finds the command of the tree of `p` whose binary name is `bin_name`, with the route
/// to it from `p`: the index of the subcommand taken at each level.
pub fn locate<'a>(p: &'a App, bin_name: &str) -> (res: Option<(&'a App, Vec<usize>)>)
    ensures
        res matches Some((q, path)) ==> find_by_bin_name(*p, bin_name@) == Some(*q)
            && path@ == found_path(*p, bin_name@),
        res is None ==> find_by_bin_name(*p, bin_name@) is None,
    decreases size(*p),
{
    let same = has_bin_name(p, bin_name);
    proof {
        assert(p.subcommands@.skip(0) =~= p.subcommands@);
    }
    if same {
        return Some((p, Vec::new()));
    }
    let n = p.subcommands.len();
    let mut i: usize = 0;
    while i < n
        invariant
            n == p.subcommands.len(),
            0 <= i <= n,
            bin_or_empty(*p) != bin_name@,
            find_by_bin_name(*p, bin_name@) == find_in_list(p.subcommands@.skip(i as int), bin_name@),
            found_path(*p, bin_name@) == path_in_list(p.subcommands@, bin_name@, i as nat),
        decreases n - i,
    {
        proof {
            lemma_size_list_elem(p.subcommands@, i as int);
            let s = p.subcommands@.skip(i as int);
            assert(s[0] == p.subcommands@[i as int]);
            assert(s.drop_first() =~= p.subcommands@.skip(i + 1));
        }
        if let Some((ret, path)) = locate(&p.subcommands[i], bin_name) {
            let mut route = path;
            route.insert(0, i);
            proof {
                assert(route@ =~= seq![i] + found_path(p.subcommands@[i as int], bin_name@));
            }
            return Some((ret, route));
        }
        i = i + 1;
    }
    proof {
        assert(p.subcommands@.skip(n as int) =~= Seq::<App>::empty());
    }
    None
}

/// The names and binary names of the views of a list of pairs of strings.
pub open spec fn pair_views(s: Seq<(String, String)>) -> Seq<Key> {
    s.map_values(|x: (String, String)| (x.0@, x.1@))
}

/// The name and binary name of each direct subcommand of `p`.
pub open spec fn direct_pairs(p: App) -> Seq<Key> {
    p.subcommands@.map_values(|sc: App| (sc.name@, bin_or_empty(sc)))
}

/// The name and binary name of every command below `p`: those of its direct
/// subcommands, then those below each of them in turn.
pub open spec fn all_pairs(p: App) -> Seq<Key>
    decreases p,
{
    direct_pairs(p) + all_pairs_list(p.subcommands@)
}

/// The name and binary name of every command below the commands of `s`.
pub open spec fn all_pairs_list(s: Seq<App>) -> Seq<Key>
    decreases s,
{
    if s.len() == 0 {
        Seq::empty()
    } else {
        all_pairs_list(s.drop_last()) + all_pairs(s.last())
    }
}

impl Zsh {
    /// The name of the completion file for the program `name`.
    pub fn file_name(name: &str) -> (res: String)
        ensures
            res@ == "_"@ + name@,
    {
        let mut s = from_literal("_");
        s.append(name);
        s
    }

    /// The name and binary name of each direct subcommand of `p`.
    pub fn subcommands(p: &App) -> (res: Vec<(String, String)>)
        requires
            forall|i: int| 0 <= i < p.subcommands@.len() ==> (#[trigger] p.subcommands@[i]).bin_name is Some,
        ensures
            pair_views(res@) == direct_pairs(*p),
    {
        let mut subcmds: Vec<(String, String)> = Vec::new();
        if p.subcommands.len() == 0 {
            assert(pair_views(subcmds@) =~= direct_pairs(*p));
            return subcmds;
        }
        let n = p.subcommands.len();
        let mut i: usize = 0;
        while i < n
            invariant
                n == p.subcommands.len(),
                0 <= i <= n,
                forall|i: int| 0 <= i < p.subcommands@.len() ==> (#[trigger] p.subcommands@[i]).bin_name is Some,
                pair_views(subcmds@) == direct_pairs(*p).take(i as int),
            decreases n - i,
        {
            let sc = &p.subcommands[i];
            let sc_bin_name = sc.bin_name.as_ref().unwrap();
            let entry = (sc.name.clone(), sc_bin_name.clone());
            let ghost before = subcmds@;
            subcmds.push(entry);
            proof {
                assert(subcmds@ == before.push(entry));
                assert(pair_views(subcmds@) =~= pair_views(before).push((entry.0@, entry.1@)));
                assert(direct_pairs(*p)[i as int] == (sc.name@, bin_or_empty(*sc)));
                assert(pair_views(subcmds@) =~= direct_pairs(*p).take(i + 1));
            }
            i = i + 1;
        }
        assert(direct_pairs(*p).take(n as int) =~= direct_pairs(*p));
        subcmds
    }

    /// The name and binary name of every command below `p`.
    pub fn all_subcommands(p: &App) -> (res: Vec<(String, String)>)
        requires
            all_bin_names_list(p.subcommands@),
        ensures
            pair_views(res@) == all_pairs(*p),
        decreases size(*p),
    {
        proof {
            assert forall|i: int| 0 <= i < p.subcommands@.len() implies (
            #[trigger] p.subcommands@[i]).bin_name is Some by {
                lemma_size_list_elem(p.subcommands@, i);
            }
        }
        let mut subcmds = Zsh::subcommands(p);
        let n = p.subcommands.len();
        let mut i: usize = 0;
        while i < n
            invariant
                n == p.subcommands.len(),
                0 <= i <= n,
                all_bin_names_list(p.subcommands@),
                pair_views(subcmds@) == direct_pairs(*p) + all_pairs_list(p.subcommands@.take(i as int)),
            decreases n - i,
        {
            proof {
                lemma_size_list_elem(p.subcommands@, i as int);
            }
            let ghost before = pair_views(subcmds@);
            let mut sc_v = Zsh::all_subcommands(&p.subcommands[i]);
            let ghost added = pair_views(sc_v@);
            subcmds.append(&mut sc_v);
            proof {
                let t = p.subcommands@.take(i + 1);
                assert(t.drop_last() =~= p.subcommands@.take(i as int));
                assert(t.last() == p.subcommands@[i as int]);
                assert(pair_views(subcmds@) =~= before + added);
            }
            i = i + 1;
        }
        assert(p.subcommands@.take(n as int) =~= p.subcommands@);
        subcmds
    }
}

/// Every pair of `all_pairs(p)` names a command that the search by binary name finds.
pub proof fn lemma_pairs_found(p: App)
    ensures
        forall|k: int| 0 <= k < all_pairs(p).len() ==> find_by_bin_name(p, (#[trigger] all_pairs(p)[k]).1) is Some,
    decreases p,
{
    lemma_pairs_list_found(p.subcommands@);
    assert forall|k: int| 0 <= k < all_pairs(p).len() implies find_by_bin_name(
        p,
        (#[trigger] all_pairs(p)[k]).1,
    ) is Some by {
        let b = all_pairs(p)[k].1;
        if k < direct_pairs(p).len() {
            lemma_find_child(p, k);
        } else {
            assert(all_pairs_list(p.subcommands@)[k - direct_pairs(p).len()] == all_pairs(p)[k]);
            if bin_or_empty(p) != b {
                assert(find_in_list(p.subcommands@, b) is Some);
            }
        }
    }
}

/// Every pair below a list of commands names a command that the search of the list finds.
pub proof fn lemma_pairs_list_found(s: Seq<App>)
    ensures
        forall|k: int| 0 <= k < all_pairs_list(s).len() ==> find_in_list(s, (#[trigger] all_pairs_list(s)[k]).1) is Some,
    decreases s,
{
    if s.len() > 0 {
        let front = s.drop_last();
        lemma_pairs_list_found(front);
        lemma_pairs_found(s.last());
        assert forall|k: int| 0 <= k < all_pairs_list(s).len() implies find_in_list(
            s,
            (#[trigger] all_pairs_list(s)[k]).1,
        ) is Some by {
            let b = all_pairs_list(s)[k].1;
            let l = all_pairs_list(front).len();
            if k < l {
                assert(all_pairs_list(front)[k] == all_pairs_list(s)[k]);
                lemma_find_list_prefix(s, front, b);
            } else {
                assert(all_pairs(s.last())[k - l] == all_pairs_list(s)[k]);
                lemma_find_list_some(s, s.len() - 1, b);
            }
        }
    }
}

/// What the search of the front of a list finds, the search of the list finds too.
proof fn lemma_find_list_prefix(s: Seq<App>, front: Seq<App>, b: Seq<char>)
    requires
        s.len() > 0,
        front == s.drop_last(),
        find_in_list(front, b) is Some,
    ensures
        find_in_list(s, b) is Some,
    decreases front.len(),
{
    let i = find_first_index(front, b);
    assert(s[i] == front[i]);
    lemma_find_list_some(s, i, b);
}

/// The index of a tree of `s` in which the search finds something.
proof fn find_first_index(s: Seq<App>, b: Seq<char>) -> (i: int)
    requires
        find_in_list(s, b) is Some,
    ensures
        0 <= i < s.len(),
        find_by_bin_name(s[i], b) is Some,
    decreases s.len(),
{
    if find_by_bin_name(s[0], b) is Some {
        0
    } else {
        let j = find_first_index(s.drop_first(), b);
        assert(s.drop_first()[j] == s[j + 1]);
        j + 1
    }
}

/// The zsh function that lists the subcommands of the command with binary name `bin`.
pub open spec fn commands_function(bin: Seq<char>, body: Seq<char>) -> Seq<char> {
    "(( $+functions[_"@ + replace_char(bin, ' ', "__"@) + "_commands] )) ||\n_"@ + replace_char(
        bin,
        ' ',
        "__"@,
    ) + "_commands() {\n    local commands; commands=(\n        "@ + body
        + "\n    )\n    _describe -t commands '"@ + bin + " commands' commands \"$@\"\n}"@
}

/// The functions listing subcommands: that of `p`, then that of each distinct command
/// below `p`, in the order of their names and binary names.
pub open spec fn details_text(p: App) -> Seq<char> {
    join(
        seq![commands_function(bin_or_empty(p), subcommands_text(p))] + sorted_distinct(
            all_pairs(p),
        ).map_values(
            |k: Key| commands_function(k.1, subcommands_text(find_by_bin_name(p, k.1).unwrap())),
        ),
        "\n"@,
    )
}

/// The details list every command below `p` (by name and binary name) in a function of
/// its own, and none twice.
pub proof fn lemma_details_list_each_command_once(p: App)
    ensures
        forall|k: Key| all_pairs(p).contains(k) <==> sorted_distinct(all_pairs(p)).contains(k),
        forall|i: int, j: int|
            0 <= i < j < sorted_distinct(all_pairs(p)).len() ==> #[trigger] sorted_distinct(
                all_pairs(p),
            )[i] != #[trigger] sorted_distinct(all_pairs(p))[j],
{
    let sd = sorted_distinct(all_pairs(p));
    lemma_sorted_distinct(all_pairs(p));
    assert forall|i: int, j: int| 0 <= i < j < sd.len() implies #[trigger] sd[i] != #[trigger] sd[j] by {
        assert(key_lt(sd[i], sd[j]));
        lemma_key_lt_order(sd[i], sd[i], sd[i]);
    }
}

/// Builds the function that lists the subcommands of the command with binary name `bin`.
fn commands_function_string(bin: &str, body: &str) -> (res: String)
    ensures
        res@ == commands_function(bin@, body@),
{
    let underscore = replace(bin, ' ', "__");
    let mut s = from_literal("(( $+functions[_");
    s.append(underscore.as_str());
    s.append("_commands] )) ||\n_");
    s.append(underscore.as_str());
    s.append("_commands() {\n    local commands; commands=(\n        ");
    s.append(body);
    s.append("\n    )\n    _describe -t commands '");
    s.append(bin);
    s.append(" commands' commands \"$@\"\n}");
    s
}

/// Displays the commands of `p` and of every command below it, each as a zsh function
/// listing its subcommands.
pub fn subcommand_details(p: &App) -> (res: String)
    requires
        all_bin_names(*p),
    ensures
        res@ == details_text(*p),
{
    let mut ret: Vec<String> = Vec::new();
    let name = p.bin_name.as_ref().unwrap();
    let first = commands_function_string(name.as_str(), subcommands_of(p).as_str());
    ret.push(first);
    let all_subcommands = Zsh::all_subcommands(p);
    let mut keys: Vec<(Vec<char>, Vec<char>)> = Vec::new();
    let n = all_subcommands.len();
    let mut i: usize = 0;
    while i < n
        invariant
            n == all_subcommands.len(),
            0 <= i <= n,
            key_views(keys@) == pair_views(all_subcommands@).take(i as int),
        decreases n - i,
    {
        let k = (chars_of(all_subcommands[i].0.as_str()), chars_of(all_subcommands[i].1.as_str()));
        let ghost before = keys@;
        keys.push(k);
        proof {
            assert(keys@ == before.push(k));
            assert(key_views(keys@) =~= key_views(before).push((k.0@, k.1@)));
            assert(key_views(keys@) =~= pair_views(all_subcommands@).take(i + 1));
        }
        i = i + 1;
    }
    assert(pair_views(all_subcommands@).take(n as int) =~= pair_views(all_subcommands@));
    let sorted = sort_distinct(keys);
    let ghost all = all_pairs(*p);
    let ghost sd = sorted_distinct(all);
    let ghost fun = |k: Key| commands_function(k.1, subcommands_text(find_by_bin_name(*p, k.1).unwrap()));
    proof {
        lemma_pairs_found(*p);
    }
    let m = sorted.len();
    let mut j: usize = 0;
    while j < m
        invariant
            m == sorted.len(),
            0 <= j <= m,
            all == all_pairs(*p),
            sd == sorted_distinct(all),
            key_views(sorted@) == sd,
            crate::order::same_elements(sd, all),
            forall|k: int| 0 <= k < all.len() ==> find_by_bin_name(*p, (#[trigger] all[k]).1) is Some,
            fun == (|k: Key| commands_function(k.1, subcommands_text(find_by_bin_name(*p, k.1).unwrap()))),
            views(ret@) == seq![commands_function(bin_or_empty(*p), subcommands_text(*p))] + sd.map_values(fun).take(j as int),
        decreases m - j,
    {
        let bin_name = string_of(&sorted[j].1);
        let ghost key = sd[j as int];
        proof {
            assert(key == (sorted@[j as int].0@, sorted@[j as int].1@));
            assert(sd.contains(key));
            assert(all.contains(key));
            let k = choose|k: int| 0 <= k < all.len() && all[k] == key;
            assert(find_by_bin_name(*p, all[k].1) is Some);
        }
        let found = parser_of(p, bin_name.as_str()).expect(INTERNAL_ERROR_MSG);
        let f = commands_function_string(bin_name.as_str(), subcommands_of(found).as_str());
        proof {
            lemma_views_push(ret@, f);
            assert(sd.map_values(fun)[j as int] == f@);
            assert(sd.map_values(fun).take(j + 1) =~= sd.map_values(fun).take(j as int).push(f@));
        }
        ret.push(f);
        j = j + 1;
    }
    proof {
        assert(sd.map_values(fun).take(m as int) =~= sd.map_values(fun));
    }
    join_strings(&ret, "\n")
}

/// The `case` block that hands the words after a subcommand of `p` to that subcommand:
/// for each direct subcommand, its `_arguments` call and, below, its own block.
pub open spec fn case_text(p: App) -> Seq<char>
    decreases size(p), p.subcommands@.len() + 1,
{
    if p.subcommands@.len() == 0 {
        Seq::empty()
    } else {
        let pos = decimal(p.positionals@.len() + 1);
        "case $state in\n    ("@ + p.name@ + ")\n        words=($line["@ + pos
            + "] \"${words[@]}\")\n        (( CURRENT += 1 ))\n        curcontext=\"${curcontext%:*:*}:"@
            + replace_char(bin_or_empty(p), ' ', "-"@) + "-command-$line["@ + pos
            + "]:\"\n        case $line["@ + pos + "] in\n            "@ + join(
            case_entries(p, p.subcommands@.len()),
            "\n"@,
        ) + "\n        esac\n    ;;\nesac"@
    }
}

/// The entries of the `case` block of `p` for its first `n` direct subcommands. Each is
/// `({name})`, then the `_arguments` call and the `case` block of the command that the
/// subcommand's binary name leads to (where not empty), then `;;`.
pub open spec fn case_entries(p: App, n: nat) -> Seq<Seq<char>>
    decreases size(p), n,
{
    if n == 0 || n > p.subcommands@.len() {
        Seq::empty()
    } else {
        let sc = p.subcommands@[n - 1];
        let entry = match find_by_bin_name(p, bin_or_empty(sc)) {
            Some(q) => if size(q) < size(p) {
                join(
                    seq!["("@ + sc.name@ + ")"@] + nonempty(
                        args_text(q, Some(found_path(p, bin_or_empty(sc)).len())),
                    ) + nonempty(
                        case_text(q),
                    ) + seq![";;"@],
                    "\n"@,
                )
            } else {
                Seq::empty()
            },
            None => Seq::empty(),
        };
        case_entries(p, (n - 1) as nat).push(entry)
    }
}

/// What the `case` blocks of `p` need. Where `p` has subcommands, it and each of them
/// has a binary name; looking each of them up by it leads below `p`; and the same holds
/// of the command found, on down: the blocks nest finitely. (Where a subcommand shares
/// the binary name of its parent, the lookup leads back to the parent, and the blocks
/// would nest forever.)
pub open spec fn lookups_descend(p: App) -> bool
    decreases size(p), p.subcommands@.len() + 1,
{
    &&& (p.subcommands@.len() > 0 ==> p.bin_name is Some)
    &&& lookups_descend_upto(p, p.subcommands@.len())
}

/// The first `n` direct subcommands of `p` have binary names, and their lookups lead
/// below `p`, and on from there.
pub open spec fn lookups_descend_upto(p: App, n: nat) -> bool
    decreases size(p), n,
{
    if n == 0 || n > p.subcommands@.len() {
        true
    } else {
        &&& lookups_descend_upto(p, (n - 1) as nat)
        &&& p.subcommands@[n - 1].bin_name is Some
        &&& match find_by_bin_name(p, bin_or_empty(p.subcommands@[n - 1])) {
            Some(q) => size(q) < size(p) && conflicts_known(
                q,
                Some(found_path(p, bin_or_empty(p.subcommands@[n - 1])).len()),
            ) && lookups_descend(q),
            None => false,
        }
    }
}

/// The lookup of each direct subcommand counted in `lookups_descend_upto` leads below.
proof fn lemma_descend_elem(p: App, n: nat, i: int)
    requires
        lookups_descend_upto(p, n),
        n <= p.subcommands@.len(),
        0 <= i < n,
    ensures
        p.subcommands@[i].bin_name is Some,
        find_by_bin_name(p, bin_or_empty(p.subcommands@[i])) matches Some(q) && size(q) < size(p)
            && conflicts_known(q, Some(found_path(p, bin_or_empty(p.subcommands@[i])).len()))
            && lookups_descend(q),
    decreases n,
{
    if i < n - 1 {
        lemma_descend_elem(p, (n - 1) as nat, i);
    }
}

/// Gets the subcommand section of a completion script: the `case` block of `p`.
pub fn get_subcommands_of(p: &App) -> (res: String)
    requires
        lookups_descend(*p),
    ensures
        res@ == case_text(*p),
    decreases size(*p),
{
    if p.subcommands.len() == 0 {
        return String::new();
    }
    proof {
        assert forall|i: int| 0 <= i < p.subcommands@.len() implies (
        #[trigger] p.subcommands@[i]).bin_name is Some by {
            lemma_descend_elem(*p, p.subcommands@.len(), i);
        }
    }
    let sc_names = Zsh::subcommands(p);
    let mut subcmds: Vec<String> = Vec::new();
    let n = sc_names.len();
    assert(pair_views(sc_names@).len() == n && direct_pairs(*p).len() == p.subcommands@.len());
    let mut i: usize = 0;
    while i < n
        invariant
            n == sc_names.len(),
            n == p.subcommands@.len(),
            pair_views(sc_names@) == direct_pairs(*p),
            lookups_descend(*p),
            0 <= i <= n,
            views(subcmds@) == case_entries(*p, i as nat),
        decreases n - i,
    {
        let name = &sc_names[i].0;
        let bin_name = &sc_names[i].1;
        let ghost sc = p.subcommands@[i as int];
        proof {
            assert(pair_views(sc_names@)[i as int] == direct_pairs(*p)[i as int]);
            assert(name@ == sc.name@ && bin_name@ == bin_or_empty(sc));
            lemma_descend_elem(*p, p.subcommands@.len(), i as int);
            lemma_find_found(*p, bin_name@);
        }
        let mut head = from_literal("(");
        head.append(name.as_str());
        head.append(")");
        let mut v: Vec<String> = Vec::new();
        v.push(head);
        assert(views(v@) =~= seq!["("@ + sc.name@ + ")"@]);
        let (q, route) = locate(p, bin_name.as_str()).expect(INTERNAL_ERROR_MSG);
        let subcommand_args = get_args_of(q, Some(route.len()));
        push_nonempty(&mut v, subcommand_args);
        let subcommands = get_subcommands_of(q);
        push_nonempty(&mut v, subcommands);
        let end = from_literal(";;");
        proof {
            lemma_views_push(v@, end);
        }
        v.push(end);
        let entry = join_strings(&v, "\n");
        proof {
            let parts = seq!["("@ + sc.name@ + ")"@] + nonempty(
                args_text(*q, Some(found_path(*p, bin_or_empty(sc)).len())),
            ) + nonempty(
                case_text(*q),
            ) + seq![";;"@];
            assert(views(v@) =~= parts);
            assert(entry@ == join(parts, "\n"@));
            assert(case_entries(*p, (i + 1) as nat) == case_entries(*p, i as nat).push(entry@));
            lemma_views_push(subcmds@, entry);
        }
        subcmds.push(entry);
        i = i + 1;
    }
    let pos = decimal_string(p.positionals.len() as u128 + 1);
    let name_hyphen = replace(p.bin_name.as_ref().unwrap().as_str(), ' ', "-");
    let joined = join_strings(&subcmds, "\n");
    let mut s = from_literal("case $state in\n    (");
    s.append(p.name.as_str());
    s.append(")\n        words=($line[");
    s.append(pos.as_str());
    s.append("] \"${words[@]}\")\n        (( CURRENT += 1 ))\n        curcontext=\"${curcontext%:*:*}:");
    s.append(name_hyphen.as_str());
    s.append("-command-$line[");
    s.append(pos.as_str());
    s.append("]:\"\n        case $line[");
    s.append(pos.as_str());
    s.append("] in\n            ");
    s.append(joined.as_str());
    s.append("\n        esac\n    ;;\nesac");
    s
}

/// The completion script of the program `app`: the `_arguments` call of `app`, the
/// `case` blocks of its subcommands, and the functions listing subcommands.
pub open spec fn script(app: App) -> Seq<char> {
    let bin = bin_or_empty(app);
    "#compdef "@ + bin + "\n\nautoload -U is-at-least\n\n_"@ + bin
        + "() {\n    typeset -A opt_args\n    typeset -a _arguments_options\n    local ret=1\n\n    if is-at-least 5.2; then\n        _arguments_options=(-s -S -C)\n    else\n        _arguments_options=(-s -C)\n    fi\n\n    local context curcontext=\"$curcontext\" state line\n    "@
        + args_text(app, None) + "\n    "@ + case_text(app) + "\n}\n\n"@ + details_text(app)
        + "\n\n_"@ + bin + " \"$@\""@
}

/// What the script of `app` needs: every command has a binary name, the conflicts of the
/// options and flags of `app` can be told, and the `case` blocks nest finitely.
pub open spec fn can_generate_spec(app: App) -> bool {
    all_bin_names(app) && conflicts_known(app, None) && lookups_descend(app)
}

/// The script of `app` begins with `#compdef` and the program's binary name, and ends
/// by calling the program's completion function with the words given.
pub proof fn lemma_script_frame(app: App)
    ensures
        ({
            let bin = bin_or_empty(app);
            let t = script(app);
            let head = "#compdef "@ + bin;
            let tail = "\n\n_"@ + bin + " \"$@\""@;
            &&& t.len() >= head.len() + tail.len()
            &&& t.subrange(0, head.len() as int) == head
            &&& t.subrange(t.len() - tail.len(), t.len() as int) == tail
        }),
{
    let bin = bin_or_empty(app);
    let t = script(app);
    let head = "#compdef "@ + bin;
    let tail = "\n\n_"@ + bin + " \"$@\""@;
    assert(t.subrange(0, head.len() as int) =~= head);
    assert(t.subrange(t.len() - tail.len(), t.len() as int) =~= tail);
}

impl Zsh {
    /// The zsh completion script of the program `app`.
    pub fn generate(app: &App) -> (res: String)
        requires
            can_generate_spec(*app),
        ensures
            res@ == script(*app),
    {
        let name = app.bin_name.as_ref().unwrap();
        let initial_args = get_args_of(app, None);
        let subcommands = get_subcommands_of(app);
        let subcommand_details = subcommand_details(app);
        let mut s = from_literal("#compdef ");
        s.append(name.as_str());
        s.append("\n\nautoload -U is-at-least\n\n_");
        s.append(name.as_str());
        s.append(
            "() {\n    typeset -A opt_args\n    typeset -a _arguments_options\n    local ret=1\n\n    if is-at-least 5.2; then\n        _arguments_options=(-s -S -C)\n    else\n        _arguments_options=(-s -C)\n    fi\n\n    local context curcontext=\"$curcontext\" state line\n    ",
        );
        s.append(initial_args.as_str());
        s.append("\n    ");
        s.append(subcommands.as_str());
        s.append("\n}\n\n");
        s.append(subcommand_details.as_str());
        s.append("\n\n_");
        s.append(name.as_str());
        s.append(" \"$@\"");
        s
    }

    /// Whether `generate` can write the script of `app`: every command has a binary name,
    /// every conflict list the script writes can be told, and the `case` blocks nest
    /// finitely.
    pub fn can_generate(app: &App) -> (r: bool)
        ensures
            r == can_generate_spec(*app),
    {
        check_bin_names(app) && check_conflicts_known(app, None) && check_lookups_descend(app)
    }

    /// The script of `app`, or `None` where `generate` cannot write it.
    pub fn try_generate(app: &App) -> (res: Option<String>)
        ensures
            res is Some <==> can_generate_spec(*app),
            res matches Some(s) ==> s@ == script(*app),
    {
        if Zsh::can_generate(app) {
            Some(Zsh::generate(app))
        } else {
            None
        }
    }
}

/// The commands of a list all have binary names exactly where each of them does.
proof fn lemma_all_bin_names_list(s: Seq<App>)
    ensures
        all_bin_names_list(s) <==> forall|i: int| 0 <= i < s.len() ==> all_bin_names(#[trigger] s[i]),
    decreases s.len(),
{
    if s.len() > 0 {
        lemma_all_bin_names_list(s.drop_first());
        if forall|i: int| 0 <= i < s.len() ==> all_bin_names(#[trigger] s[i]) {
            assert forall|i: int| 0 <= i < s.drop_first().len() implies all_bin_names(
                #[trigger] s.drop_first()[i],
            ) by {
                assert(s.drop_first()[i] == s[i + 1]);
            }
        }
        if all_bin_names_list(s) {
            assert forall|i: int| 0 <= i < s.len() implies all_bin_names(#[trigger] s[i]) by {
                if i > 0 {
                    assert(s.drop_first()[i - 1] == s[i]);
                }
            }
        }
    }
}

/// Whether every command of the tree of `p` has a binary name.
fn check_bin_names(p: &App) -> (r: bool)
    ensures
        r == all_bin_names(*p),
    decreases size(*p),
{
    proof {
        lemma_all_bin_names_list(p.subcommands@);
    }
    if p.bin_name.is_none() {
        return false;
    }
    let n = p.subcommands.len();
    let mut i: usize = 0;
    while i < n
        invariant
            n == p.subcommands.len(),
            0 <= i <= n,
            forall|j: int| 0 <= j < i ==> all_bin_names(#[trigger] p.subcommands@[j]),
        decreases n - i,
    {
        proof {
            lemma_size_list_elem(p.subcommands@, i as int);
        }
        if !check_bin_names(&p.subcommands[i]) {
            return false;
        }
        i = i + 1;
    }
    true
}

/// Fewer lookups are covered where more are.
proof fn lemma_descend_upto_mono(p: App, n: nat, m: nat)
    requires
        m <= n <= p.subcommands@.len(),
        lookups_descend_upto(p, n),
    ensures
        lookups_descend_upto(p, m),
    decreases n,
{
    if m < n {
        lemma_descend_upto_mono(p, (n - 1) as nat, m);
    }
}

/// Whether the `case` blocks of `p` nest finitely.
fn check_lookups_descend(p: &App) -> (r: bool)
    ensures
        r == lookups_descend(*p),
    decreases size(*p),
{
    let n = p.subcommands.len();
    if n > 0 && p.bin_name.is_none() {
        return false;
    }
    let mut i: usize = 0;
    while i < n
        invariant
            n == p.subcommands@.len(),
            0 <= i <= n,
            n > 0 ==> p.bin_name is Some,
            lookups_descend_upto(*p, i as nat),
        decreases n - i,
    {
        let sc = &p.subcommands[i];
        proof {
            if !lookups_descend_upto(*p, (i + 1) as nat) && lookups_descend(*p) {
                lemma_descend_upto_mono(*p, n as nat, (i + 1) as nat);
            }
        }
        if sc.bin_name.is_none() {
            return false;
        }
        let b: &str = sc.bin_name.as_ref().unwrap().as_str();
        proof {
            assert(b@ == bin_or_empty(*sc));
            lemma_find_child(*p, i as int);
        }
        if has_bin_name(p, b) {
            return false;
        }
        proof {
            lemma_find_list_found(p.subcommands@, b@);
        }
        let (q, route) = locate(p, b).expect(INTERNAL_ERROR_MSG);
        if !check_conflicts_known(q, Some(route.len())) {
            return false;
        }
        if !check_lookups_descend(q) {
            return false;
        }
        i = i + 1;
    }
    true
}

/// Whether the conflicts of every option and flag of `p` can be told, for a section
/// written `p_global` levels above `p` (or for `p` itself).
fn check_conflicts_known(p: &App, p_global: Option<usize>) -> (r: bool)
    ensures
        r == conflicts_known(*p, levels(p_global)),
{
    let n = p.opts.len();
    let mut i: usize = 0;
    while i < n
        invariant
            n == p.opts@.len(),
            0 <= i <= n,
            forall|j: int| 0 <= j < i ==> can_tell_conflicts(#[trigger] p.opts@[j], levels(p_global)),
        decreases n - i,
    {
        if !can_tell(&p.opts[i], p_global) {
            return false;
        }
        i = i + 1;
    }
    let m = p.flags.len();
    let mut j: usize = 0;
    while j < m
        invariant
            n == p.opts@.len(),
            m == p.flags@.len(),
            0 <= j <= m,
            forall|k: int| 0 <= k < n ==> can_tell_conflicts(#[trigger] p.opts@[k], levels(p_global)),
            forall|k: int| 0 <= k < j ==> can_tell_conflicts(#[trigger] p.flags@[k], levels(p_global)),
        decreases m - j,
    {
        if !can_tell(&p.flags[j], p_global) {
            return false;
        }
        j = j + 1;
    }
    true
}

/// Whether the conflicts of `arg` can be told, for a section written `p_global` levels
/// above its command (or for its command itself).
fn can_tell(arg: &crate::model::Arg, p_global: Option<usize>) -> (r: bool)
    ensures
        r == can_tell_conflicts(*arg, levels(p_global)),
{
    let level: usize = match p_global {
        Some(d) if arg.global => d,
        _ => 0,
    };
    level < arg.conflicts.len() && arg.conflicts[level].is_some()
}

/// Each command of `s` has no subcommands.
pub open spec fn all_leaves(s: Seq<App>) -> bool {
    forall|i: int| 0 <= i < s.len() ==> (#[trigger] s[i]).subcommands@.len() == 0
}

/// In a list of commands without subcommands, the search by a binary name that one of
/// them has finds one of them.
proof fn lemma_flat_find(s: Seq<App>, b: Seq<char>, j: int) -> (k: int)
    requires
        all_leaves(s),
        0 <= j < s.len(),
        bin_or_empty(s[j]) == b,
    ensures
        0 <= k < s.len(),
        find_in_list(s, b) == Some(s[k]),
    decreases s.len(),
{
    assert(s[0].subcommands@.len() == 0);
    assert(s[0].subcommands@ =~= Seq::<App>::empty());
    if bin_or_empty(s[0]) == b {
        assert(find_by_bin_name(s[0], b) == Some(s[0]));
        0
    } else {
        assert(find_in_list(s[0].subcommands@, b) is None);
        assert(find_by_bin_name(s[0], b) is None);
        assert(find_in_list(s, b) == find_in_list(s.drop_first(), b));
        let t = s.drop_first();
        assert forall|i: int| 0 <= i < t.len() implies (#[trigger] t[i]).subcommands@.len() == 0 by {
            assert(t[i] == s[i + 1]);
        }
        assert(t[j - 1] == s[j]);
        let k = lemma_flat_find(t, b, j - 1);
        assert(t[k] == s[k + 1]);
        k + 1
    }
}

/// In a list of commands without subcommands, the route to what the search finds is one
/// step long.
proof fn lemma_flat_path(s: Seq<App>, b: Seq<char>, i: nat, j: int)
    requires
        all_leaves(s),
        i <= j < s.len(),
        bin_or_empty(s[j]) == b,
    ensures
        path_in_list(s, b, i).len() == 1,
    decreases j - i,
{
    let c = s[i as int];
    assert(c.subcommands@.len() == 0);
    if find_by_bin_name(c, b) is Some {
        if bin_or_empty(c) != b {
            assert(find_in_list(c.subcommands@, b) is None);
        }
        assert(found_path(c, b) =~= Seq::<usize>::empty());
    } else {
        lemma_flat_path(s, b, i + 1, j);
    }
}

/// A program whose subcommands have no subcommands of their own gets its script where it
/// and each subcommand have a binary name, no subcommand has the program's binary name,
/// and the conflicts of the options and flags of the program, and of each subcommand, can
/// be told as the program reports them: whatever else the commands hold (helps, visible
/// aliases, arguments).
pub proof fn lemma_can_generate_flat(app: App)
    requires
        app.bin_name is Some,
        conflicts_known(app, None),
        all_leaves(app.subcommands@),
        forall|i: int|
            0 <= i < app.subcommands@.len() ==> {
                let sc = #[trigger] app.subcommands@[i];
                &&& sc.bin_name is Some
                &&& bin_or_empty(sc) != bin_or_empty(app)
                &&& conflicts_known(sc, Some(1))
            },
    ensures
        can_generate_spec(app),
{
    let s = app.subcommands@;
    assert forall|i: int| 0 <= i < s.len() implies all_bin_names(#[trigger] s[i]) by {
        assert(s[i].subcommands@.len() == 0);
        assert(all_bin_names_list(s[i].subcommands@));
    }
    lemma_all_bin_names_list(s);
    lemma_flat_upto(app, s.len());
}

proof fn lemma_flat_upto(app: App, n: nat)
    requires
        n <= app.subcommands@.len(),
        app.bin_name is Some,
        all_leaves(app.subcommands@),
        forall|i: int|
            0 <= i < app.subcommands@.len() ==> {
                let sc = #[trigger] app.subcommands@[i];
                &&& sc.bin_name is Some
                &&& bin_or_empty(sc) != bin_or_empty(app)
                &&& conflicts_known(sc, Some(1))
            },
    ensures
        lookups_descend_upto(app, n),
    decreases n,
{
    if n > 0 {
        lemma_flat_upto(app, (n - 1) as nat);
        let s = app.subcommands@;
        let j = n - 1;
        let b = bin_or_empty(s[j]);
        assert(s[j].bin_name is Some && b != bin_or_empty(app));
        let k = lemma_flat_find(s, b, j);
        let q = s[k];
        assert(find_by_bin_name(app, b) == Some(q));
        lemma_flat_path(s, b, 0, j);
        assert(found_path(app, b).len() == 1);
        assert(q.subcommands@.len() == 0);
        assert(q.subcommands@ =~= Seq::<App>::empty());
        assert(size(q) == 1);
        lemma_size_list_elem(s, k);
        assert(size(q) < size(app));
        assert(conflicts_known(q, Some(1)));
        assert(lookups_descend(q));
    }
}

} // verus!
