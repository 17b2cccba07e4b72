//! Escaping of text that stands inside the quotes and brackets of a zsh
//! `_arguments` specification.
use vstd::prelude::*;
use crate::text::{flat_map_chars, replace, replace_char, replace_one, lemma_flat_map_compose,
    lemma_flat_map_escapes, lemma_flat_map_injective, lemma_flat_map_single};

verus! {

/// How a help text is escaped inside single quotes and brackets, character by character.
pub open spec fn help_escape(c: char) -> Seq<char> {
    if c == '\\' {
        seq!['\\', '\\']
    } else if c == '\'' {
        seq!['\'', '\\', '\'', '\'']
    } else if c == '[' {
        seq!['\\', '[']
    } else if c == ']' {
        seq!['\\', ']']
    } else {
        seq![c]
    }
}

/// How a possible value is escaped inside single quotes and parentheses.
pub open spec fn value_escape(c: char) -> Seq<char> {
    if c == '\\' {
        seq!['\\', '\\']
    } else if c == '\'' {
        seq!['\'', '\\', '\'', '\'']
    } else if c == '(' {
        seq!['\\', '(']
    } else if c == ')' {
        seq!['\\', ')']
    } else if c == ' ' {
        seq!['\\', ' ']
    } else {
        seq![c]
    }
}

/// How the help of a subcommand is escaped: its brackets only.
pub open spec fn bracket_escape(c: char) -> Seq<char> {
    if c == '[' {
        seq!['\\', '[']
    } else if c == ']' {
        seq!['\\', ']']
    } else {
        seq![c]
    }
}

/// How the help of a positional argument is escaped: its brackets and colons.
pub open spec fn positional_escape(c: char) -> Seq<char> {
    if c == '[' {
        seq!['\\', '[']
    } else if c == ']' {
        seq!['\\', ']']
    } else if c == ':' {
        seq!['\\', ':']
    } else {
        seq![c]
    }
}

/// `s` escaped as a help text.
pub open spec fn escaped_help(s: Seq<char>) -> Seq<char> {
    flat_map_chars(s, |c: char| help_escape(c))
}

/// `s` escaped as a possible value.
pub open spec fn escaped_value(s: Seq<char>) -> Seq<char> {
    flat_map_chars(s, |c: char| value_escape(c))
}

/// `s` escaped as the help of a subcommand.
pub open spec fn escaped_brackets(s: Seq<char>) -> Seq<char> {
    flat_map_chars(s, |c: char| bracket_escape(c))
}

/// `s` escaped as the help of a positional argument.
pub open spec fn escaped_positional(s: Seq<char>) -> Seq<char> {
    flat_map_chars(s, |c: char| positional_escape(c))
}

proof fn lemma_untouched(t: Seq<char>, from: char, to: Seq<char>)
    requires
        !t.contains(from),
    ensures
        replace_char(t, from, to) == t,
    decreases t.len(),
{
    if t.len() > 0 {
        if t.drop_last().contains(from) {
            let i = choose|i: int| 0 <= i < t.drop_last().len() && t.drop_last()[i] == from;
            assert(t[i] == from);
        }
        assert(t[t.len() - 1] != from);
        lemma_untouched(t.drop_last(), from, to);
        assert(t.drop_last().push(t.last()) =~= t);
    }
}

/// Replacing `from` after a character-wise map `f` is the character-wise map `h`, where
/// `f` leaves a character alone or writes text without `from`.
proof fn lemma_then_replace(
    s: Seq<char>,
    f: spec_fn(char) -> Seq<char>,
    from: char,
    to: Seq<char>,
    h: spec_fn(char) -> Seq<char>,
)
    requires
        forall|c: char| f(c) == seq![c] || !(#[trigger] f(c)).contains(from),
        forall|c: char|
            #[trigger] h(c) == (if f(c) == seq![c] {
                replace_one(from, to)(c)
            } else {
                f(c)
            }),
    ensures
        replace_char(flat_map_chars(s, f), from, to) == flat_map_chars(s, h),
{
    assert forall|c: char| #[trigger] h(c) == flat_map_chars(f(c), replace_one(from, to)) by {
        if f(c) == seq![c] {
            lemma_flat_map_single(c, replace_one(from, to));
        } else {
            lemma_untouched(f(c), from, to);
        }
    }
    lemma_flat_map_compose(s, f, replace_one(from, to), h);
}

/// The four replacements of a help text, one after the other, escape it character by
/// character.
pub proof fn lemma_help_replacements(s: Seq<char>)
    ensures
        replace_char(
            replace_char(
                replace_char(replace_char(s, '\\', seq!['\\', '\\']), '\'', seq!['\'', '\\', '\'', '\'']),
                '[',
                seq!['\\', '['],
            ),
            ']',
            seq!['\\', ']'],
        ) == escaped_help(s),
{
    let bs = seq!['\\', '\\'];
    let q = seq!['\'', '\\', '\'', '\''];
    let lb = seq!['\\', '['];
    let rb = seq!['\\', ']'];
    let f1 = replace_one('\\', bs);
    let f2 = |c: char|
        if c == '\\' {
            bs
        } else if c == '\'' {
            q
        } else {
            seq![c]
        };
    let f3 = |c: char|
        if c == '\\' {
            bs
        } else if c == '\'' {
            q
        } else if c == '[' {
            lb
        } else {
            seq![c]
        };
    let f4 = |c: char| help_escape(c);
    assert(!bs.contains('\'') && !bs.contains('[') && !bs.contains(']')) by {
        assert forall|i: int| 0 <= i < bs.len() implies bs[i] == '\\' by {}
    }
    assert(!q.contains('[') && !q.contains(']')) by {
        assert forall|i: int| 0 <= i < q.len() implies (q[i] == '\\' || q[i] == '\'') by {}
    }
    assert(!lb.contains(']')) by {
        assert forall|i: int| 0 <= i < lb.len() implies (lb[i] == '\\' || lb[i] == '[') by {}
    }
    lemma_then_replace(s, f1, '\'', q, f2);
    lemma_then_replace(s, f2, '[', lb, f3);
    lemma_then_replace(s, f3, ']', rb, f4);
}

/// The five replacements of a possible value, one after the other, escape it character by
/// character.
pub proof fn lemma_value_replacements(s: Seq<char>)
    ensures
        replace_char(
            replace_char(
                replace_char(
                    replace_char(replace_char(s, '\\', seq!['\\', '\\']), '\'', seq!['\'', '\\', '\'', '\'']),
                    '(',
                    seq!['\\', '('],
                ),
                ')',
                seq!['\\', ')'],
            ),
            ' ',
            seq!['\\', ' '],
        ) == escaped_value(s),
{
    let bs = seq!['\\', '\\'];
    let q = seq!['\'', '\\', '\'', '\''];
    let lp = seq!['\\', '('];
    let rp = seq!['\\', ')'];
    let sp = seq!['\\', ' '];
    let f1 = replace_one('\\', bs);
    let f2 = |c: char|
        if c == '\\' {
            bs
        } else if c == '\'' {
            q
        } else {
            seq![c]
        };
    let f3 = |c: char|
        if c == '\\' {
            bs
        } else if c == '\'' {
            q
        } else if c == '(' {
            lp
        } else {
            seq![c]
        };
    let f4 = |c: char|
        if c == '\\' {
            bs
        } else if c == '\'' {
            q
        } else if c == '(' {
            lp
        } else if c == ')' {
            rp
        } else {
            seq![c]
        };
    let f5 = |c: char| value_escape(c);
    assert(!bs.contains('\'') && !bs.contains('(') && !bs.contains(')') && !bs.contains(' ')) by {
        assert forall|i: int| 0 <= i < bs.len() implies bs[i] == '\\' by {}
    }
    assert(!q.contains('(') && !q.contains(')') && !q.contains(' ')) by {
        assert forall|i: int| 0 <= i < q.len() implies (q[i] == '\\' || q[i] == '\'') by {}
    }
    assert(!lp.contains(')') && !lp.contains(' ')) by {
        assert forall|i: int| 0 <= i < lp.len() implies (lp[i] == '\\' || lp[i] == '(') by {}
    }
    assert(!rp.contains(' ')) by {
        assert forall|i: int| 0 <= i < rp.len() implies (rp[i] == '\\' || rp[i] == ')') by {}
    }
    lemma_then_replace(s, f1, '\'', q, f2);
    lemma_then_replace(s, f2, '(', lp, f3);
    lemma_then_replace(s, f3, ')', rp, f4);
    lemma_then_replace(s, f4, ' ', sp, f5);
}

/// The two replacements of a subcommand's help escape it character by character.
pub proof fn lemma_bracket_replacements(s: Seq<char>)
    ensures
        replace_char(replace_char(s, '[', seq!['\\', '[']), ']', seq!['\\', ']']) == escaped_brackets(s),
{
    let lb = seq!['\\', '['];
    let rb = seq!['\\', ']'];
    let f1 = replace_one('[', lb);
    let f2 = |c: char| bracket_escape(c);
    assert(!lb.contains(']')) by {
        assert forall|i: int| 0 <= i < lb.len() implies (lb[i] == '\\' || lb[i] == '[') by {}
    }
    lemma_then_replace(s, f1, ']', rb, f2);
}

/// The three replacements of a positional argument's help escape it character by character.
pub proof fn lemma_positional_replacements(s: Seq<char>)
    ensures
        replace_char(
            replace_char(replace_char(s, '[', seq!['\\', '[']), ']', seq!['\\', ']']),
            ':',
            seq!['\\', ':'],
        ) == escaped_positional(s),
{
    let lb = seq!['\\', '['];
    let rb = seq!['\\', ']'];
    let co = seq!['\\', ':'];
    let f1 = replace_one('[', lb);
    let f2 = |c: char|
        if c == '[' {
            lb
        } else if c == ']' {
            rb
        } else {
            seq![c]
        };
    let f3 = |c: char| positional_escape(c);
    assert(!lb.contains(']') && !lb.contains(':')) by {
        assert forall|i: int| 0 <= i < lb.len() implies (lb[i] == '\\' || lb[i] == '[') by {}
    }
    assert(!rb.contains(':')) by {
        assert forall|i: int| 0 <= i < rb.len() implies (rb[i] == '\\' || rb[i] == ']') by {}
    }
    lemma_then_replace(s, f1, ']', rb, f2);
    lemma_then_replace(s, f2, ':', co, f3);
}

/// Escaping a help text loses nothing: different help texts are escaped differently.
pub proof fn lemma_escaped_help_injective(a: Seq<char>, b: Seq<char>)
    requires
        escaped_help(a) == escaped_help(b),
    ensures
        a == b,
{
    let f = |c: char| help_escape(c);
    assert forall|c: char| (#[trigger] f(c)).len() > 0 && f(c).last() == c by {}
    lemma_flat_map_injective(a, b, f);
}

/// Escaping a possible value loses nothing: different values are escaped differently.
pub proof fn lemma_escaped_value_injective(a: Seq<char>, b: Seq<char>)
    requires
        escaped_value(a) == escaped_value(b),
    ensures
        a == b,
{
    let f = |c: char| value_escape(c);
    assert forall|c: char| (#[trigger] f(c)).len() > 0 && f(c).last() == c by {}
    lemma_flat_map_injective(a, b, f);
}

/// In an escaped help text, every bracket follows a backslash, so none closes the
/// description brackets of zsh.
pub proof fn lemma_escaped_help_brackets(s: Seq<char>)
    ensures
        forall|i: int|
            0 <= i < escaped_help(s).len() && (#[trigger] escaped_help(s)[i] == '[' || escaped_help(s)[i] == ']')
                ==> i > 0 && escaped_help(s)[i - 1] == '\\',
{
    let f = |c: char| help_escape(c);
    let special = |x: char| x == '[' || x == ']';
    assert forall|c: char, i: int|
        0 <= i < f(c).len() && special(#[trigger] f(c)[i]) implies i > 0 && f(c)[i - 1] == '\\' by {}
    lemma_flat_map_escapes(s, f, special);
    assert forall|i: int|
        0 <= i < escaped_help(s).len() && (#[trigger] escaped_help(s)[i] == '[' || escaped_help(s)[i] == ']')
        implies i > 0 && escaped_help(s)[i - 1] == '\\' by {
        assert(special(flat_map_chars(s, f)[i]));
    }
}

/// In an escaped possible value, every parenthesis and every space follows a backslash,
/// so none ends the zsh list of values.
pub proof fn lemma_escaped_value_separators(s: Seq<char>)
    ensures
        forall|i: int|
            0 <= i < escaped_value(s).len() && (#[trigger] escaped_value(s)[i] == '(' || escaped_value(s)[i] == ')'
                || escaped_value(s)[i] == ' ') ==> i > 0 && escaped_value(s)[i - 1] == '\\',
{
    let f = |c: char| value_escape(c);
    let special = |x: char| x == '(' || x == ')' || x == ' ';
    assert forall|c: char, i: int|
        0 <= i < f(c).len() && special(#[trigger] f(c)[i]) implies i > 0 && f(c)[i - 1] == '\\' by {}
    lemma_flat_map_escapes(s, f, special);
    assert forall|i: int|
        0 <= i < escaped_value(s).len() && (#[trigger] escaped_value(s)[i] == '(' || escaped_value(s)[i] == ')'
            || escaped_value(s)[i] == ' ') implies i > 0 && escaped_value(s)[i - 1] == '\\' by {
        assert(special(flat_map_chars(s, f)[i]));
    }
}

/// Escapes a help text that stands inside single quotes and brackets.
pub fn escape_help(string: &str) -> (res: String)
    ensures
        res@ == escaped_help(string@),
{
    let a = replace(string, '\\', "\\\\");
    let b = replace(a.as_str(), '\'', "'\\''");
    let c = replace(b.as_str(), '[', "\\[");
    let d = replace(c.as_str(), ']', "\\]");
    proof {
        reveal_strlit("\\\\");
        reveal_strlit("'\\''");
        reveal_strlit("\\[");
        reveal_strlit("\\]");
        assert("\\\\"@ =~= seq!['\\', '\\']);
        assert("'\\''"@ =~= seq!['\'', '\\', '\'', '\'']);
        assert("\\["@ =~= seq!['\\', '[']);
        assert("\\]"@ =~= seq!['\\', ']']);
        lemma_help_replacements(string@);
    }
    d
}

/// Escapes a possible value that stands inside single quotes and parentheses.
pub fn escape_value(string: &str) -> (res: String)
    ensures
        res@ == escaped_value(string@),
{
    let a = replace(string, '\\', "\\\\");
    let b = replace(a.as_str(), '\'', "'\\''");
    let c = replace(b.as_str(), '(', "\\(");
    let d = replace(c.as_str(), ')', "\\)");
    let e = replace(d.as_str(), ' ', "\\ ");
    proof {
        reveal_strlit("\\\\");
        reveal_strlit("'\\''");
        reveal_strlit("\\(");
        reveal_strlit("\\)");
        reveal_strlit("\\ ");
        assert("\\\\"@ =~= seq!['\\', '\\']);
        assert("'\\''"@ =~= seq!['\'', '\\', '\'', '\'']);
        assert("\\("@ =~= seq!['\\', '(']);
        assert("\\)"@ =~= seq!['\\', ')']);
        assert("\\ "@ =~= seq!['\\', ' ']);
        lemma_value_replacements(string@);
    }
    e
}

/// Escapes the brackets of a subcommand's help.
pub fn escape_brackets(string: &str) -> (res: String)
    ensures
        res@ == escaped_brackets(string@),
{
    let a = replace(string, '[', "\\[");
    let b = replace(a.as_str(), ']', "\\]");
    proof {
        reveal_strlit("\\[");
        reveal_strlit("\\]");
        assert("\\["@ =~= seq!['\\', '[']);
        assert("\\]"@ =~= seq!['\\', ']']);
        lemma_bracket_replacements(string@);
    }
    b
}

/// Escapes the brackets and colons of a positional argument's help.
pub fn escape_positional(string: &str) -> (res: String)
    ensures
        res@ == escaped_positional(string@),
{
    let a = replace(string, '[', "\\[");
    let b = replace(a.as_str(), ']', "\\]");
    let c = replace(b.as_str(), ':', "\\:");
    proof {
        reveal_strlit("\\[");
        reveal_strlit("\\]");
        reveal_strlit("\\:");
        assert("\\["@ =~= seq!['\\', '[']);
        assert("\\]"@ =~= seq!['\\', ']']);
        assert("\\:"@ =~= seq!['\\', ':']);
        lemma_positional_replacements(string@);
    }
    c
}

} // verus!
