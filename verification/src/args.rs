//! The `_arguments` call of one command: its options, flags and positional arguments,
//! and the jump to its subcommands.
use vstd::prelude::*;
use crate::escape::{escape_help, escape_positional, escape_value, escaped_help,
    escaped_positional, escaped_value};
use crate::model::{bin_or_empty, App, Arg, Switch, ValueHint};
use crate::text::{from_literal, join, join_strings, lemma_join_ends, lemma_views_push, push_char, replace,
    replace_char, views};

verus! {

/// `[s]`, or no text at all where `s` is empty.
pub open spec fn nonempty(s: Seq<char>) -> Seq<Seq<char>> {
    if s.len() == 0 {
        Seq::empty()
    } else {
        seq![s]
    }
}

/// Appends `s` to `v` unless it is empty.
pub fn push_nonempty(v: &mut Vec<String>, s: String)
    ensures
        views(final(v)@) == views(old(v)@) + nonempty(s@),
{
    if !s.as_str().is_empty() {
        v.push(s);
        proof {
            assert(views(v@) =~= views(old(v)@) + seq![s@]);
        }
    } else {
        proof {
            assert(views(v@) =~= views(old(v)@) + Seq::<Seq<char>>::empty());
        }
    }
}

/// What zsh completes for a value of the given kind, `None` where it completes nothing.
pub open spec fn hint_completion(h: ValueHint) -> Option<Seq<char>> {
    match h {
        ValueHint::Unknown => None,
        ValueHint::Other => Some("( )"@),
        ValueHint::AnyPath => Some("_files"@),
        ValueHint::FilePath => Some("_files"@),
        ValueHint::DirPath => Some("_files -/"@),
        ValueHint::ExecutablePath => Some("_absolute_command_paths"@),
        ValueHint::CommandName => Some("_command_names -e"@),
        ValueHint::CommandString => Some("_cmdstring"@),
        ValueHint::CommandWithArguments => Some("_cmdambivalent"@),
        ValueHint::Username => Some("_users"@),
        ValueHint::Hostname => Some("_hosts"@),
        ValueHint::Url => Some("_urls"@),
        ValueHint::EmailAddress => Some("_email_addresses"@),
    }
}

/// The possible values, each escaped.
pub open spec fn escaped_values(vs: Seq<Seq<char>>) -> Seq<Seq<char>> {
    vs.map_values(|v: Seq<char>| escaped_value(v))
}

/// What zsh completes for the value of `arg`: its possible values, escaped and
/// space-separated in parentheses, where it lists some; else what its kind of value asks.
pub open spec fn value_completion_text(arg: Arg) -> Option<Seq<char>> {
    match arg.possible_values {
        Some(vs) => Some("("@ + join(escaped_values(views(vs@)), " "@) + ")"@),
        None => hint_completion(arg.value_hint),
    }
}

/// Uses either the possible values or the value hint to give hints about possible
/// argument values.
pub fn value_completion(arg: &Arg) -> (res: Option<String>)
    ensures
        res matches Some(s) ==> value_completion_text(*arg) == Some(s@),
        res is None ==> value_completion_text(*arg) is None,
{
    match &arg.possible_values {
        Some(values) => {
            let mut escaped: Vec<String> = Vec::new();
            let n = values.len();
            let mut i: usize = 0;
            while i < n
                invariant
                    n == values.len(),
                    0 <= i <= n,
                    views(escaped@) == escaped_values(views(values@)).take(i as int),
                decreases n - i,
            {
                let e = escape_value(values[i].as_str());
                proof {
                    lemma_views_push(escaped@, e);
                    assert(views(values@)[i as int] == values@[i as int]@);
                    assert(escaped_values(views(values@))[i as int] == e@);
                    assert(escaped_values(views(values@)).take(i + 1) =~= escaped_values(
                        views(values@),
                    ).take(i as int).push(e@));
                }
                escaped.push(e);
                i = i + 1;
            }
            proof {
                assert(escaped_values(views(values@)).take(n as int) =~= escaped_values(
                    views(values@),
                ));
            }
            let joined = join_strings(&escaped, " ");
            let mut s = from_literal("(");
            s.append(joined.as_str());
            s.append(")");
            Some(s)
        },
        None => {
            let hint = match arg.value_hint {
                ValueHint::Unknown => {
                    return None;
                },
                ValueHint::Other => "( )",
                ValueHint::AnyPath => "_files",
                ValueHint::FilePath => "_files",
                ValueHint::DirPath => "_files -/",
                ValueHint::ExecutablePath => "_absolute_command_paths",
                ValueHint::CommandName => "_command_names -e",
                ValueHint::CommandString => "_cmdstring",
                ValueHint::CommandWithArguments => "_cmdambivalent",
                ValueHint::Username => "_users",
                ValueHint::Hostname => "_hosts",
                ValueHint::Url => "_urls",
                ValueHint::EmailAddress => "_email_addresses",
            };
            Some(from_literal(hint))
        },
    }
}

/// How a conflicting argument is spelled: its short form, then its long form, each
/// where it has one.
pub open spec fn switch_spellings(sw: Switch) -> Seq<Seq<char>> {
    (match sw.short {
        Some(c) => seq!["-"@.push(c)],
        None => Seq::empty(),
    }) + (match sw.long {
        Some(l) => seq!["--"@ + l@],
        None => Seq::empty(),
    })
}

/// The spellings of a list of conflicting arguments.
pub open spec fn switches_spellings(cs: Seq<Switch>) -> Seq<Seq<char>>
    decreases cs.len(),
{
    if cs.len() == 0 {
        Seq::empty()
    } else {
        switches_spellings(cs.drop_last()) + switch_spellings(cs.last())
    }
}

/// The view of the levels above its own command at which a script section is written,
/// where it is written for another command.
pub open spec fn levels(p_global: Option<usize>) -> Option<nat> {
    match p_global {
        Some(d) => Some(d as nat),
        None => None,
    }
}

/// Whose report of the conflicts of `arg` counts, in levels above the argument's own
/// command: for a global argument in a section written for the command `asker` levels
/// above, that command's; else its own command's.
pub open spec fn asked_level(arg: Arg, asker: Option<nat>) -> nat {
    match asker {
        Some(d) => if arg.global {
            d
        } else {
            0
        },
        None => 0,
    }
}

/// The command whose report counts can tell the conflicts of `arg`.
pub open spec fn can_tell_conflicts(arg: Arg, asker: Option<nat>) -> bool {
    &&& asked_level(arg, asker) < arg.conflicts@.len()
    &&& arg.conflicts@[asked_level(arg, asker) as int] is Some
}

/// The conflicts of every option and flag of `p` can be told.
pub open spec fn conflicts_known(p: App, asker: Option<nat>) -> bool {
    &&& forall|i: int| 0 <= i < p.opts@.len() ==> can_tell_conflicts(#[trigger] p.opts@[i], asker)
    &&& forall|i: int| 0 <= i < p.flags@.len() ==> can_tell_conflicts(#[trigger] p.flags@[i], asker)
}

/// The conflicts that count for `arg`.
pub open spec fn counted_conflicts(arg: Arg, asker: Option<nat>) -> Seq<Switch> {
    match arg.conflicts@[asked_level(arg, asker) as int] {
        Some(cs) => cs@,
        None => Seq::empty(),
    }
}

/// The conflicts of `arg` as zsh lists them: `(-a --all -v)`, or nothing where there are
/// none.
pub open spec fn conflicts_text(arg: Arg, asker: Option<nat>) -> Seq<char> {
    let cs = counted_conflicts(arg, asker);
    if cs.len() == 0 {
        Seq::empty()
    } else {
        "("@ + join(switches_spellings(cs), " "@) + ")"@
    }
}

/// Appends the spellings of each conflicting argument.
fn push_conflicts(conflicts: &Vec<Switch>, res: &mut Vec<String>)
    ensures
        views(final(res)@) == views(old(res)@) + switches_spellings(conflicts@),
{
    let n = conflicts.len();
    let mut i: usize = 0;
    let ghost start = views(res@);
    assert(conflicts@.take(0) =~= Seq::<Switch>::empty());
    assert(start + Seq::<Seq<char>>::empty() =~= start);
    while i < n
        invariant
            n == conflicts.len(),
            0 <= i <= n,
            views(res@) == start + switches_spellings(conflicts@.take(i as int)),
        decreases n - i,
    {
        let conflict = &conflicts[i];
        let ghost mid = views(res@);
        if let Some(s) = conflict.short {
            let mut w = from_literal("-");
            push_char(&mut w, s);
            res.push(w);
        }
        let ghost mid2 = views(res@);
        if let Some(l) = &conflict.long {
            let mut w = from_literal("--");
            w.append(l.as_str());
            res.push(w);
        }
        proof {
            let t = conflicts@.take(i + 1);
            assert(t.drop_last() =~= conflicts@.take(i as int));
            assert(t.last() == *conflict);
            let sw = switch_spellings(*conflict);
            assert(views(res@) =~= mid + sw);
            assert(views(res@) =~= start + switches_spellings(t));
        }
        i = i + 1;
    }
    assert(conflicts@.take(n as int) =~= conflicts@);
}

/// The arguments that `arg` conflicts with, in zsh's `(...)` form. `app_global` is,
/// where the section is written for a command above the argument's own, how many levels
/// above it stands; for a global argument, that command's report of the conflicts counts.
pub fn arg_conflicts(arg: &Arg, app_global: Option<usize>) -> (res: String)
    requires
        can_tell_conflicts(*arg, levels(app_global)),
    ensures
        res@ == conflicts_text(*arg, levels(app_global)),
{
    let mut res: Vec<String> = Vec::new();
    let level: usize = match app_global {
        Some(d) if arg.global => d,
        _ => 0,
    };
    let conflicts = arg.conflicts[level].as_ref().unwrap();
    if conflicts.len() == 0 {
        return String::new();
    }
    push_conflicts(conflicts, &mut res);
    proof {
        assert(views(res@) =~= switches_spellings(conflicts@));
    }
    let joined = join_strings(&res, " ");
    let mut s = from_literal("(");
    s.append(joined.as_str());
    s.append(")");
    s
}

/// One line of the `_arguments` call: `'{conflicts}{multiple}{dash}{arg}{open}{help}]{value}' \`.
pub open spec fn spec_line(
    conflicts: Seq<char>,
    multiple: Seq<char>,
    dash: Seq<char>,
    arg: Seq<char>,
    open: Seq<char>,
    help: Seq<char>,
    value: Seq<char>,
) -> Seq<char> {
    "'"@ + conflicts + multiple + dash + arg + open + help + "]"@ + value + "' \\"@
}

/// Builds a line of the `_arguments` call.
fn spec_line_string(
    conflicts: &str,
    multiple: &str,
    dash: &str,
    arg: &str,
    open: &str,
    help: &str,
    value: &str,
) -> (res: String)
    ensures
        res@ == spec_line(conflicts@, multiple@, dash@, arg@, open@, help@, value@),
{
    let mut s = from_literal("'");
    s.append(conflicts);
    s.append(multiple);
    s.append(dash);
    s.append(arg);
    s.append(open);
    s.append(help);
    s.append("]");
    s.append(value);
    s.append("' \\");
    s
}

/// The help of `arg`, escaped, or nothing.
pub open spec fn help_text(arg: Arg) -> Seq<char> {
    match arg.help {
        Some(h) => escaped_help(h@),
        None => Seq::empty(),
    }
}

/// `*` for an option that may be given more than once or take several values.
pub open spec fn opt_multiple(o: Arg) -> Seq<char> {
    if o.multiple_occurrences || o.multiple_values {
        "*"@
    } else {
        Seq::empty()
    }
}

/// `: :{completion}` for an option whose value zsh can complete, else nothing.
pub open spec fn opt_value(o: Arg) -> Seq<char> {
    match value_completion_text(o) {
        Some(v) => ": :"@ + v,
        None => Seq::empty(),
    }
}

/// The line of one short name of an argument.
pub open spec fn short_line(
    conflicts: Seq<char>,
    multiple: Seq<char>,
    open: Seq<char>,
    help: Seq<char>,
    value: Seq<char>,
    c: char,
) -> Seq<char> {
    spec_line(conflicts, multiple, "-"@, seq![c], open, help, value)
}

/// The lines for the short form of an argument and for each of its visible short
/// aliases, which count only where it has a short form.
pub open spec fn short_lines(
    short: Option<char>,
    aliases: Option<Vec<char>>,
    conflicts: Seq<char>,
    multiple: Seq<char>,
    open: Seq<char>,
    help: Seq<char>,
    value: Seq<char>,
) -> Seq<Seq<char>> {
    match short {
        Some(c) => seq![short_line(conflicts, multiple, open, help, value, c)] + match aliases {
            Some(a) => a@.map_values(|x: char| short_line(conflicts, multiple, open, help, value, x)),
            None => Seq::empty(),
        },
        None => Seq::empty(),
    }
}

/// The line for the long form of an argument, where it has one.
pub open spec fn long_lines(
    long: Option<String>,
    conflicts: Seq<char>,
    multiple: Seq<char>,
    open: Seq<char>,
    help: Seq<char>,
    value: Seq<char>,
) -> Seq<Seq<char>> {
    match long {
        Some(l) => seq![spec_line(conflicts, multiple, "--"@, l@, open, help, value)],
        None => Seq::empty(),
    }
}

/// The lines of one option: its short form, its visible short aliases, its long form.
pub open spec fn opt_lines(o: Arg, asker: Option<nat>) -> Seq<Seq<char>> {
    let conflicts = conflicts_text(o, asker);
    let multiple = opt_multiple(o);
    let help = help_text(o);
    let value = opt_value(o);
    short_lines(o.short, o.visible_short_aliases, conflicts, multiple, "+["@, help, value)
        + long_lines(o.long, conflicts, multiple, "=["@, help, value)
}

/// The lines of a list of options.
pub open spec fn opts_lines(s: Seq<Arg>, asker: Option<nat>) -> Seq<Seq<char>>
    decreases s.len(),
{
    if s.len() == 0 {
        Seq::empty()
    } else {
        opts_lines(s.drop_last(), asker) + opt_lines(s.last(), asker)
    }
}

/// `*` for a flag that may be given more than once.
pub open spec fn flag_multiple(f: Arg) -> Seq<char> {
    if f.multiple_occurrences {
        "*"@
    } else {
        Seq::empty()
    }
}

/// The lines of one flag: its short form, its visible short aliases, its long form.
pub open spec fn flag_lines(f: Arg, asker: Option<nat>) -> Seq<Seq<char>> {
    let conflicts = conflicts_text(f, asker);
    let multiple = flag_multiple(f);
    let help = help_text(f);
    short_lines(f.short, f.visible_short_aliases, conflicts, multiple, "["@, help, Seq::empty())
        + long_lines(f.long, conflicts, multiple, "["@, help, Seq::empty())
}

/// The lines of a list of flags.
pub open spec fn flags_lines(s: Seq<Arg>, asker: Option<nat>) -> Seq<Seq<char>>
    decreases s.len(),
{
    if s.len() == 0 {
        Seq::empty()
    } else {
        flags_lines(s.drop_last(), asker) + flag_lines(s.last(), asker)
    }
}

/// The option lines of `p`, one per line.
pub open spec fn opts_text(p: App, asker: Option<nat>) -> Seq<char> {
    join(opts_lines(p.opts@, asker), "\n"@)
}

/// The flag lines of `p`, one per line.
pub open spec fn flags_text(p: App, asker: Option<nat>) -> Seq<char> {
    join(flags_lines(p.flags@, asker), "\n"@)
}

/// Appends the lines of the short form of an argument and of its visible short aliases.
fn push_short_lines(
    short: Option<char>,
    aliases: &Option<Vec<char>>,
    conflicts: &str,
    multiple: &str,
    open: &str,
    help: &str,
    value: &str,
    ret: &mut Vec<String>,
)
    ensures
        views(final(ret)@) == views(old(ret)@) + short_lines(
            short,
            *aliases,
            conflicts@,
            multiple@,
            open@,
            help@,
            value@,
        ),
{
    let ghost start = views(ret@);
    let ghost line = |x: char| short_line(conflicts@, multiple@, open@, help@, value@, x);
    if let Some(c) = short {
        let mut name = String::new();
        push_char(&mut name, c);
        assert(name@ =~= seq![c]);
        let s = spec_line_string(conflicts, multiple, "-", name.as_str(), open, help, value);
        proof {
            lemma_views_push(ret@, s);
        }
        ret.push(s);
        let ghost first = views(ret@);
        assert(first =~= start + seq![line(c)]);
        if let Some(short_aliases) = aliases {
            let n = short_aliases.len();
            let ghost all = short_aliases@.map_values(line);
            let mut i: usize = 0;
            while i < n
                invariant
                    n == short_aliases.len(),
                    all == short_aliases@.map_values(line),
                    line == (|x: char| short_line(conflicts@, multiple@, open@, help@, value@, x)),
                    0 <= i <= n,
                    views(ret@) == first + all.take(i as int),
                decreases n - i,
            {
                let alias = short_aliases[i];
                let mut name = String::new();
                push_char(&mut name, alias);
                assert(name@ =~= seq![alias]);
                let s = spec_line_string(conflicts, multiple, "-", name.as_str(), open, help, value);
                proof {
                    lemma_views_push(ret@, s);
                    assert(all[i as int] == line(alias));
                    assert(all.take(i + 1) =~= all.take(i as int).push(s@));
                }
                ret.push(s);
                i = i + 1;
            }
            assert(all.take(n as int) =~= all);
            assert(views(ret@) =~= start + (seq![line(c)] + all));
        } else {
            assert(views(ret@) =~= start + (seq![line(c)] + Seq::<Seq<char>>::empty()));
        }
    } else {
        assert(views(ret@) =~= start + Seq::<Seq<char>>::empty());
    }
}

/// Appends the line of the long form of an argument, where it has one.
fn push_long_line(
    long: &Option<String>,
    conflicts: &str,
    multiple: &str,
    open: &str,
    help: &str,
    value: &str,
    ret: &mut Vec<String>,
)
    ensures
        views(final(ret)@) == views(old(ret)@) + long_lines(
            *long,
            conflicts@,
            multiple@,
            open@,
            help@,
            value@,
        ),
{
    let ghost start = views(ret@);
    if let Some(l) = long {
        let s = spec_line_string(conflicts, multiple, "--", l.as_str(), open, help, value);
        proof {
            lemma_views_push(ret@, s);
        }
        ret.push(s);
        assert(views(ret@) =~= start + seq![s@]);
    } else {
        assert(views(ret@) =~= start + Seq::<Seq<char>>::empty());
    }
}

/// Appends the lines of an option (`is_opt`) or a flag.
fn push_arg_lines(arg: &Arg, app_global: Option<usize>, is_opt: bool, ret: &mut Vec<String>)
    requires
        can_tell_conflicts(*arg, levels(app_global)),
    ensures
        views(final(ret)@) == views(old(ret)@) + (if is_opt {
            opt_lines(*arg, levels(app_global))
        } else {
            flag_lines(*arg, levels(app_global))
        }),
{
    let ghost g = levels(app_global);
    let ghost start = views(ret@);
    let help = match &arg.help {
        Some(h) => escape_help(h.as_str()),
        None => String::new(),
    };
    let conflicts = arg_conflicts(arg, app_global);
    let multiple = if is_opt {
        if arg.multiple_occurrences || arg.multiple_values {
            "*"
        } else {
            ""
        }
    } else {
        if arg.multiple_occurrences {
            "*"
        } else {
            ""
        }
    };
    let vc = if is_opt {
        match value_completion(arg) {
            Some(val) => {
                let mut s = from_literal(": :");
                s.append(val.as_str());
                s
            },
            None => String::new(),
        }
    } else {
        String::new()
    };
    let open_short = if is_opt {
        "+["
    } else {
        "["
    };
    let open_long = if is_opt {
        "=["
    } else {
        "["
    };
    proof {
        reveal_strlit("");
        assert(help@ == help_text(*arg));
        if is_opt {
            assert(multiple@ == opt_multiple(*arg));
            assert(vc@ == opt_value(*arg));
        } else {
            assert(multiple@ == flag_multiple(*arg));
            assert(vc@ =~= Seq::<char>::empty());
        }
    }
    push_short_lines(
        arg.short,
        &arg.visible_short_aliases,
        conflicts.as_str(),
        multiple,
        open_short,
        help.as_str(),
        vc.as_str(),
        ret,
    );
    push_long_line(
        &arg.long,
        conflicts.as_str(),
        multiple,
        open_long,
        help.as_str(),
        vc.as_str(),
        ret,
    );
    proof {
        assert(views(ret@) =~= start + (if is_opt {
            opt_lines(*arg, g)
        } else {
            flag_lines(*arg, g)
        }));
    }
}

/// The `_arguments` lines of the options of `p`.
pub fn write_opts_of(p: &App, p_global: Option<usize>) -> (res: String)
    requires
        forall|i: int| 0 <= i < p.opts@.len() ==> can_tell_conflicts(#[trigger] p.opts@[i], levels(p_global)),
    ensures
        res@ == opts_text(*p, levels(p_global)),
{
    let mut ret: Vec<String> = Vec::new();
    let n = p.opts.len();
    let mut i: usize = 0;
    while i < n
        invariant
            n == p.opts.len(),
            0 <= i <= n,
            views(ret@) == opts_lines(p.opts@.take(i as int), levels(p_global)),
            forall|i: int| 0 <= i < p.opts@.len() ==> can_tell_conflicts(#[trigger] p.opts@[i], levels(p_global)),
        decreases n - i,
    {
        push_arg_lines(&p.opts[i], p_global, true, &mut ret);
        proof {
            let t = p.opts@.take(i + 1);
            assert(t.drop_last() =~= p.opts@.take(i as int));
            assert(t.last() == p.opts@[i as int]);
        }
        i = i + 1;
    }
    assert(p.opts@.take(n as int) =~= p.opts@);
    join_strings(&ret, "\n")
}

/// The `_arguments` lines of the flags of `p`.
pub fn write_flags_of(p: &App, p_global: Option<usize>) -> (res: String)
    requires
        forall|i: int| 0 <= i < p.flags@.len() ==> can_tell_conflicts(#[trigger] p.flags@[i], levels(p_global)),
    ensures
        res@ == flags_text(*p, levels(p_global)),
{
    let mut ret: Vec<String> = Vec::new();
    let n = p.flags.len();
    let mut i: usize = 0;
    while i < n
        invariant
            n == p.flags.len(),
            0 <= i <= n,
            views(ret@) == flags_lines(p.flags@.take(i as int), levels(p_global)),
            forall|i: int| 0 <= i < p.flags@.len() ==> can_tell_conflicts(#[trigger] p.flags@[i], levels(p_global)),
        decreases n - i,
    {
        push_arg_lines(&p.flags[i], p_global, false, &mut ret);
        proof {
            let t = p.flags@.take(i + 1);
            assert(t.drop_last() =~= p.flags@.take(i as int));
            assert(t.last() == p.flags@[i as int]);
        }
        i = i + 1;
    }
    assert(p.flags@.take(n as int) =~= p.flags@);
    join_strings(&ret, "\n")
}

/// How many values a positional argument takes: `*:` for several, `:` for an optional
/// one, nothing for a required one.
pub open spec fn cardinality(a: Arg) -> Seq<char> {
    if a.multiple_values {
        "*:"@
    } else if !a.required {
        ":"@
    } else {
        Seq::empty()
    }
}

/// ` -- {help}` where the argument has a help, else nothing.
pub open spec fn positional_help(a: Arg) -> Seq<char> {
    match a.help {
        Some(h) => " -- "@ + h@,
        None => Seq::empty(),
    }
}

/// The line of a positional argument: `'{cardinality}:{name}{help}:{completion}' \`.
pub open spec fn positional_line(a: Arg) -> Seq<char> {
    "'"@ + cardinality(a) + ":"@ + a.name@ + escaped_positional(positional_help(a)) + ":"@
        + match value_completion_text(a) {
        Some(v) => v,
        None => Seq::empty(),
    } + "' \\"@
}

/// The positional lines of `p`, one per line.
pub open spec fn positionals_text(p: App) -> Seq<char> {
    join(p.positionals@.map_values(|a: Arg| positional_line(a)), "\n"@)
}

/// The `_arguments` lines of the positional arguments of `p`.
pub fn write_positionals_of(p: &App) -> (res: String)
    ensures
        res@ == positionals_text(*p),
{
    let mut ret: Vec<String> = Vec::new();
    let n = p.positionals.len();
    let mut i: usize = 0;
    while i < n
        invariant
            n == p.positionals.len(),
            0 <= i <= n,
            views(ret@) == p.positionals@.map_values(|a: Arg| positional_line(a)).take(i as int),
        decreases n - i,
    {
        let arg = &p.positionals[i];
        let cardinality = if arg.multiple_values {
            "*:"
        } else if !arg.required {
            ":"
        } else {
            ""
        };
        let prefixed = match &arg.help {
            Some(v) => {
                let mut s = from_literal(" -- ");
                s.append(v.as_str());
                s
            },
            None => String::new(),
        };
        let help = escape_positional(prefixed.as_str());
        let vc = match value_completion(arg) {
            Some(v) => v,
            None => String::new(),
        };
        let mut a = from_literal("'");
        a.append(cardinality);
        a.append(":");
        a.append(arg.name.as_str());
        a.append(help.as_str());
        a.append(":");
        a.append(vc.as_str());
        a.append("' \\");
        proof {
            reveal_strlit("");
            assert(cardinality@ == crate::args::cardinality(*arg));
            assert(prefixed@ =~= positional_help(*arg));
            assert(a@ =~= positional_line(*arg));
        }
        proof {
            lemma_views_push(ret@, a);
            let all = p.positionals@.map_values(|a: Arg| positional_line(a));
            assert(all[i as int] == a@);
            assert(all.take(i + 1) =~= all.take(i as int).push(a@));
        }
        ret.push(a);
        i = i + 1;
    }
    proof {
        assert(p.positionals@.map_values(|a: Arg| positional_line(a)).take(n as int)
            =~= p.positionals@.map_values(|a: Arg| positional_line(a)));
    }
    join_strings(&ret, "\n")
}

/// How a line of the `_arguments` call begins and ends: a quote and the conflicts, then
/// the first character of the multiple mark (or of the dash, where there is no mark); and
/// at the end the closing bracket, the value part and the closing quote.
proof fn lemma_spec_line_shape(
    conflicts: Seq<char>,
    multiple: Seq<char>,
    dash: Seq<char>,
    arg: Seq<char>,
    open: Seq<char>,
    help: Seq<char>,
    value: Seq<char>,
)
    requires
        dash.len() > 0,
    ensures
        ({
            let line = spec_line(conflicts, multiple, dash, arg, open, help, value);
            &&& line.len() > (conflicts.len() + 1) as int
            &&& line.len() >= value.len() + 4
            &&& line.subrange(0, (conflicts.len() + 1) as int) == "'"@ + conflicts
            &&& line[(conflicts.len() + 1) as int] == (if multiple.len() > 0 {
                multiple[0]
            } else {
                dash[0]
            })
            &&& line.subrange(line.len() - (value.len() + 4), line.len() as int) == "]"@ + value
                + "' \\"@
        }),
{
    reveal_strlit("'");
    reveal_strlit("]");
    reveal_strlit("' \\");
    let line = spec_line(conflicts, multiple, dash, arg, open, help, value);
    assert(line.subrange(0, (conflicts.len() + 1) as int) =~= "'"@ + conflicts);
    assert(line.subrange(line.len() - (value.len() + 4), line.len() as int) =~= "]"@ + value
        + "' \\"@);
}

/// Every line of a flag begins with a quote and the flag's conflicts, then `*` exactly
/// where the flag may be given more than once; and a flag with a short or a long form has
/// lines.
pub proof fn lemma_flag_lines_multiple(f: Arg, asker: Option<nat>)
    ensures
        forall|k: int|
            0 <= k < flag_lines(f, asker).len() ==> {
                let line = #[trigger] flag_lines(f, asker)[k];
                let c = conflicts_text(f, asker);
                &&& line.len() > (c.len() + 1) as int
                &&& line.subrange(0, (c.len() + 1) as int) == "'"@ + c
                &&& (line[(c.len() + 1) as int] == '*') == f.multiple_occurrences
            },
        (f.short is Some || f.long is Some) ==> flag_lines(f, asker).len() > 0,
{
    reveal_strlit("*");
    reveal_strlit("-");
    reveal_strlit("--");
    let c = conflicts_text(f, asker);
    let m = flag_multiple(f);
    let h = help_text(f);
    let e = Seq::<char>::empty();
    let lines = flag_lines(f, asker);
    let sl = short_lines(f.short, f.visible_short_aliases, c, m, "["@, h, e);
    let ll = long_lines(f.long, c, m, "["@, h, e);
    assert(lines == sl + ll);
    assert forall|k: int| 0 <= k < lines.len() implies {
        let line = #[trigger] lines[k];
        &&& line.len() > (c.len() + 1) as int
        &&& line.subrange(0, (c.len() + 1) as int) == "'"@ + c
        &&& (line[(c.len() + 1) as int] == '*') == f.multiple_occurrences
    } by {
        if k < sl.len() {
            assert(lines[k] == sl[k]);
            let x = if k == 0 {
                f.short.unwrap()
            } else {
                f.visible_short_aliases.unwrap()@[k - 1]
            };
            assert(sl[k] == spec_line(c, m, "-"@, seq![x], "["@, h, e));
            lemma_spec_line_shape(c, m, "-"@, seq![x], "["@, h, e);
        } else {
            assert(lines[k] == ll[k - sl.len()]);
            let l = f.long.unwrap();
            assert(ll[k - sl.len()] == spec_line(c, m, "--"@, l@, "["@, h, e));
            lemma_spec_line_shape(c, m, "--"@, l@, "["@, h, e);
        }
    }
    if f.short is Some {
        assert(sl.len() > 0);
    }
    if f.long is Some {
        assert(ll.len() > 0);
    }
}

/// Every line of an option begins with a quote and the option's conflicts, then `*`
/// exactly where the option may be given more than once or takes several values; it ends
/// with `]: :` and the option's value completion and the closing quote where the option
/// has a completion (whatever its value hint), else with `]` and the closing quote. An
/// option with a short or a long form has lines.
pub proof fn lemma_opt_lines_shape(o: Arg, asker: Option<nat>)
    ensures
        forall|k: int|
            0 <= k < opt_lines(o, asker).len() ==> {
                let line = #[trigger] opt_lines(o, asker)[k];
                let c = conflicts_text(o, asker);
                &&& line.len() > (c.len() + 1) as int
                &&& line.subrange(0, (c.len() + 1) as int) == "'"@ + c
                &&& (line[(c.len() + 1) as int] == '*') == (o.multiple_occurrences || o.multiple_values)
                &&& match value_completion_text(o) {
                    Some(v) => line.len() >= v.len() + 7 && line.subrange(
                        line.len() - (v.len() + 7),
                        line.len() as int,
                    ) == "]: :"@ + v + "' \\"@,
                    None => line.len() >= 4 && line.subrange(line.len() - 4, line.len() as int)
                        == "]' \\"@,
                }
            },
        (o.short is Some || o.long is Some) ==> opt_lines(o, asker).len() > 0,
{
    reveal_strlit("*");
    reveal_strlit("-");
    reveal_strlit("--");
    reveal_strlit("]");
    reveal_strlit(": :");
    reveal_strlit("]: :");
    reveal_strlit("' \\");
    reveal_strlit("]' \\");
    let c = conflicts_text(o, asker);
    let m = opt_multiple(o);
    let h = help_text(o);
    let v = opt_value(o);
    let lines = opt_lines(o, asker);
    let sl = short_lines(o.short, o.visible_short_aliases, c, m, "+["@, h, v);
    let ll = long_lines(o.long, c, m, "=["@, h, v);
    assert(lines == sl + ll);
    assert forall|k: int| 0 <= k < lines.len() implies {
        let line = #[trigger] lines[k];
        &&& line.len() > (c.len() + 1) as int
        &&& line.subrange(0, (c.len() + 1) as int) == "'"@ + c
        &&& (line[(c.len() + 1) as int] == '*') == (o.multiple_occurrences || o.multiple_values)
        &&& match value_completion_text(o) {
            Some(w) => line.len() >= w.len() + 7 && line.subrange(
                line.len() - (w.len() + 7),
                line.len() as int,
            ) == "]: :"@ + w + "' \\"@,
            None => line.len() >= 4 && line.subrange(line.len() - 4, line.len() as int)
                == "]' \\"@,
        }
    } by {
        let line = lines[k];
        if k < sl.len() {
            assert(lines[k] == sl[k]);
            let x = if k == 0 {
                o.short.unwrap()
            } else {
                o.visible_short_aliases.unwrap()@[k - 1]
            };
            assert(sl[k] == spec_line(c, m, "-"@, seq![x], "+["@, h, v));
            lemma_spec_line_shape(c, m, "-"@, seq![x], "+["@, h, v);
        } else {
            assert(lines[k] == ll[k - sl.len()]);
            let l = o.long.unwrap();
            assert(ll[k - sl.len()] == spec_line(c, m, "--"@, l@, "=["@, h, v));
            lemma_spec_line_shape(c, m, "--"@, l@, "=["@, h, v);
        }
        let tail = line.subrange(line.len() - (v.len() + 4), line.len() as int);
        assert(tail == "]"@ + v + "' \\"@);
        match value_completion_text(o) {
            Some(w) => {
                assert(v == ": :"@ + w);
                assert("]"@ + v + "' \\"@ =~= "]: :"@ + w + "' \\"@);
            },
            None => {
                assert(v =~= Seq::<char>::empty());
                assert("]"@ + v + "' \\"@ =~= "]' \\"@);
            },
        }
    }
    if o.short is Some {
        assert(sl.len() > 0);
    }
    if o.long is Some {
        assert(ll.len() > 0);
    }
}

/// An argument that lists possible values has a value completion, and the same one
/// whatever its value hint.
pub proof fn lemma_possible_values_complete(a: Arg, b: Arg)
    requires
        a.possible_values is Some,
        b.possible_values == a.possible_values,
    ensures
        value_completion_text(a) is Some,
        value_completion_text(a) == value_completion_text(b),
{
}

/// An argument has no value completion exactly where it lists no possible values and its
/// value hint is `Unknown`; a list of possible values is written in parentheses.
pub proof fn lemma_value_completion_presence(a: Arg)
    ensures
        (value_completion_text(a) is None) == (a.possible_values is None && a.value_hint
            == ValueHint::Unknown),
        a.possible_values is Some ==> ({
            let v = value_completion_text(a)->0;
            &&& v.len() >= 2
            &&& v[0] == '('
            &&& v[v.len() - 1] == ')'
        }),
{
    reveal_strlit("(");
    reveal_strlit(")");
}

/// The conflicts of an argument are written as nothing where none count, else in
/// parentheses.
pub proof fn lemma_conflicts_text_shape(arg: Arg, asker: Option<nat>)
    ensures
        (conflicts_text(arg, asker).len() == 0) == (counted_conflicts(arg, asker).len() == 0),
        counted_conflicts(arg, asker).len() > 0 ==> ({
            let t = conflicts_text(arg, asker);
            &&& t.len() >= 2
            &&& t[0] == '('
            &&& t[t.len() - 1] == ')'
        }),
{
    reveal_strlit("(");
    reveal_strlit(")");
}

/// The line of a positional argument ends with a colon, the argument's value completion
/// (or nothing) and the closing quote.
pub proof fn lemma_positional_line_end(a: Arg)
    ensures
        ({
            let v = match value_completion_text(a) {
                Some(v) => v,
                None => Seq::<char>::empty(),
            };
            let line = positional_line(a);
            &&& line.len() >= v.len() + 4
            &&& line.subrange(line.len() - (v.len() + 4), line.len() as int) == ":"@ + v
                + "' \\"@
        }),
{
    reveal_strlit(":");
    reveal_strlit("' \\");
    let v = match value_completion_text(a) {
        Some(v) => v,
        None => Seq::<char>::empty(),
    };
    let line = positional_line(a);
    assert(line.subrange(line.len() - (v.len() + 4), line.len() as int) =~= ":"@ + v
        + "' \\"@);
}

/// The line of a positional argument begins with its cardinality and name: `'*::{name}`
/// where it takes several values, required or not; `'::{name}` where it is optional and
/// takes one; `':{name}` where it is required and takes one.
pub proof fn lemma_positional_line_start(a: Arg)
    ensures
        positional_line(a).len() >= 4 + a.name@.len(),
        a.multiple_values ==> positional_line(a).subrange(0, (4 + a.name@.len()) as int) == "'*::"@
            + a.name@,
        !a.multiple_values && !a.required ==> positional_line(a).subrange(
            0,
            (3 + a.name@.len()) as int,
        ) == "'::"@ + a.name@,
        !a.multiple_values && a.required ==> positional_line(a).subrange(0, (2 + a.name@.len()) as int)
            == "':"@ + a.name@,
{
    reveal_strlit("'");
    reveal_strlit("*:");
    reveal_strlit(":");
    reveal_strlit("'*::");
    reveal_strlit("'::");
    reveal_strlit("':");
    reveal_strlit("' \\");
    let line = positional_line(a);
    if a.multiple_values {
        assert(line.subrange(0, (4 + a.name@.len()) as int) =~= "'*::"@ + a.name@);
    } else if !a.required {
        assert(line.subrange(0, (3 + a.name@.len()) as int) =~= "'::"@ + a.name@);
    } else {
        assert(line.subrange(0, (2 + a.name@.len()) as int) =~= "':"@ + a.name@);
    }
}

/// The positional section of a command with one positional argument is that argument's
/// line.
pub proof fn lemma_positionals_text_single(p: App)
    requires
        p.positionals@.len() == 1,
    ensures
        positionals_text(p) == positional_line(p.positionals@[0]),
{
}

/// The first line of every `_arguments` call.
pub open spec fn args_head() -> Seq<char> {
    "_arguments \"${_arguments_options[@]}\" \\"@
}

/// The line that offers the subcommands of `p` by name, where it has any.
pub open spec fn commands_jump(p: App) -> Seq<char> {
    if p.subcommands@.len() > 0 {
        "\":: :_"@ + replace_char(bin_or_empty(p), ' ', "__"@) + "_commands\" \\"@
    } else {
        Seq::empty()
    }
}

/// The line that hands the words after a subcommand to the subcommand's state, where
/// `p` has subcommands.
pub open spec fn state_jump(p: App) -> Seq<char> {
    if p.subcommands@.len() > 0 {
        "\"*::: :->"@ + p.name@ + "\" \\"@
    } else {
        Seq::empty()
    }
}

/// The lines of the `_arguments` call of `p`.
pub open spec fn args_lines(p: App, asker: Option<nat>) -> Seq<Seq<char>> {
    seq![args_head()] + nonempty(opts_text(p, asker)) + nonempty(flags_text(p, asker))
        + nonempty(positionals_text(p)) + nonempty(commands_jump(p)) + nonempty(state_jump(p))
        + seq!["&& ret=0"@]
}

/// The `_arguments` call of `p`.
pub open spec fn args_text(p: App, asker: Option<nat>) -> Seq<char> {
    join(args_lines(p, asker), "\n"@)
}

/// Every `_arguments` call begins with its head line and ends with `&& ret=0`.
pub proof fn lemma_args_text_frame(p: App, asker: Option<nat>)
    ensures
        args_text(p, asker).len() >= args_head().len() + "&& ret=0"@.len(),
        args_text(p, asker).subrange(0, args_head().len() as int) == args_head(),
        args_text(p, asker).subrange(
            args_text(p, asker).len() - "&& ret=0"@.len(),
            args_text(p, asker).len() as int,
        ) == "&& ret=0"@,
{
    let parts = args_lines(p, asker);
    assert(parts[0] == args_head());
    assert(parts.last() == "&& ret=0"@);
    lemma_join_ends(parts, "\n"@);
    assert(parts.len() >= 2);
    assert(join(parts, "\n"@) == join(parts.drop_last(), "\n"@) + "\n"@ + parts.last());
    lemma_join_ends(parts.drop_last(), "\n"@);
    assert(parts.drop_last()[0] == args_head());
}

/// Writes out the args section: the options, flags and positional arguments, and a jump
/// to another zsh function where there are subcommands. `p_global` is, where the section
/// is written for a command above `p`, how many levels above `p` it stands.
pub fn get_args_of(p: &App, p_global: Option<usize>) -> (res: String)
    requires
        p.subcommands@.len() > 0 ==> p.bin_name is Some,
        conflicts_known(*p, levels(p_global)),
    ensures
        res@ == args_text(*p, levels(p_global)),
{
    let ghost g = levels(p_global);
    let mut ret: Vec<String> = Vec::new();
    ret.push(from_literal("_arguments \"${_arguments_options[@]}\" \\"));
    assert(views(ret@) =~= seq![args_head()]);
    let opts = write_opts_of(p, p_global);
    let flags = write_flags_of(p, p_global);
    let positionals = write_positionals_of(p);
    let has_subcommands = p.subcommands.len() > 0;
    let sc_or_a = if has_subcommands {
        let name = replace(p.bin_name.as_ref().unwrap().as_str(), ' ', "__");
        let mut s = from_literal("\":: :_");
        s.append(name.as_str());
        s.append("_commands\" \\");
        s
    } else {
        String::new()
    };
    let sc = if has_subcommands {
        let mut s = from_literal("\"*::: :->");
        s.append(p.name.as_str());
        s.append("\" \\");
        s
    } else {
        String::new()
    };
    proof {
        reveal_strlit("__");
        assert(sc_or_a@ =~= commands_jump(*p));
        assert(sc@ =~= state_jump(*p));
    }
    push_nonempty(&mut ret, opts);
    push_nonempty(&mut ret, flags);
    push_nonempty(&mut ret, positionals);
    push_nonempty(&mut ret, sc_or_a);
    push_nonempty(&mut ret, sc);
    let last = from_literal("&& ret=0");
    proof {
        lemma_views_push(ret@, last);
    }
    ret.push(last);
    proof {
        assert(views(ret@) =~= args_lines(*p, g));
    }
    join_strings(&ret, "\n")
}

} // verus!
