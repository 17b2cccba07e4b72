use clap_generate_zsh::args::{
    arg_conflicts, get_args_of, value_completion, write_flags_of, write_opts_of,
    write_positionals_of,
};
use clap_generate_zsh::escape::{escape_brackets, escape_help, escape_positional, escape_value};
use clap_generate_zsh::model::{App, Arg, Switch, ValueHint};
use clap_generate_zsh::order::{compare_chars, sort_distinct, Comparison};
use clap_generate_zsh::text::{decimal_string, join_strings, replace};
use clap_generate_zsh::zsh::{
    get_subcommands_of, parser_of, subcommand_details, subcommands_of, Zsh,
};

fn arg(name: &str) -> Arg {
    Arg {
        name: name.to_string(),
        help: None,
        short: None,
        long: None,
        visible_short_aliases: None,
        possible_values: None,
        value_hint: ValueHint::Unknown,
        multiple_occurrences: false,
        multiple_values: false,
        required: false,
        global: false,
        conflicts: vec![Some(Vec::new())],
    }
}

fn switch(short: Option<char>, long: Option<&str>) -> Switch {
    Switch {
        short,
        long: long.map(|l| l.to_string()),
    }
}

fn help_flag() -> Arg {
    let mut a = arg("help");
    a.short = Some('h');
    a.long = Some("help".to_string());
    a.help = Some("Print help information".to_string());
    a
}

fn app(name: &str, bin_name: Option<&str>) -> App {
    App {
        name: name.to_string(),
        bin_name: bin_name.map(|b| b.to_string()),
        about: None,
        visible_aliases: Vec::new(),
        opts: Vec::new(),
        flags: Vec::new(),
        positionals: Vec::new(),
        subcommands: Vec::new(),
    }
}

fn lines(ls: &[&str]) -> String {
    ls.join("\n")
}

/// `my_app [FILE]` with a subcommand `test --case <CASE>`.
fn my_app() -> App {
    let mut file = arg("file");
    file.help = Some("some input file".to_string());
    let mut case = arg("case");
    case.long = Some("case".to_string());
    case.help = Some("the case to test".to_string());
    let mut test = app("test", Some("my_app test"));
    test.about = Some("tests things".to_string());
    test.opts.push(case);
    test.flags.push(help_flag());
    let mut root = app("my_app", Some("my_app"));
    root.about = Some("Tests completions".to_string());
    root.flags.push(help_flag());
    root.positionals.push(file);
    root.subcommands.push(test);
    root
}

#[test]
fn file_name_prefixes_underscore() {
    assert_eq!(Zsh::file_name("myapp"), "_myapp");
    assert_eq!(Zsh::file_name(""), "_");
}

#[test]
fn escape_help_escapes_quotes_brackets_backslashes() {
    assert_eq!(escape_help("a'b[c]\\d"), "a'\\''b\\[c\\]\\\\d");
    assert_eq!(escape_help("plain (text)"), "plain (text)");
    assert_eq!(escape_help(""), "");
}

#[test]
fn escape_value_escapes_quotes_parens_spaces() {
    assert_eq!(escape_value("a b(c)'\\"), "a\\ b\\(c\\)'\\''\\\\");
    assert_eq!(escape_value("[x]"), "[x]");
}

#[test]
fn escape_brackets_and_positional() {
    assert_eq!(escape_brackets("[a]:b"), "\\[a\\]:b");
    assert_eq!(escape_positional(" -- [a]:b"), " -- \\[a\\]\\:b");
}

#[test]
fn replace_every_occurrence() {
    assert_eq!(replace("a b c", ' ', "__"), "a__b__c");
    assert_eq!(replace("abc", 'x', "y"), "abc");
    assert_eq!(replace("ééé", 'é', "e"), "eee");
}

#[test]
fn join_strings_separates() {
    let v = vec!["a".to_string(), "b".to_string(), "c".to_string()];
    assert_eq!(join_strings(&v, "\n"), "a\nb\nc");
    assert_eq!(join_strings(&Vec::new(), "\n"), "");
    assert_eq!(join_strings(&vec!["x".to_string()], ", "), "x");
}

#[test]
fn decimal_string_formats() {
    assert_eq!(decimal_string(0), "0");
    assert_eq!(decimal_string(7), "7");
    assert_eq!(decimal_string(10), "10");
    assert_eq!(decimal_string(1234567890), "1234567890");
    assert_eq!(decimal_string(u64::MAX as u128 + 1), "18446744073709551616");
}

#[test]
fn value_completion_possible_values() {
    let mut a = arg("shell");
    a.possible_values = Some(vec!["bash".to_string(), "fish shell".to_string(), "(z)".to_string()]);
    a.value_hint = ValueHint::FilePath;
    assert_eq!(value_completion(&a), Some("(bash fish\\ shell \\(z\\))".to_string()));
    a.possible_values = Some(Vec::new());
    assert_eq!(value_completion(&a), Some("()".to_string()));
}

#[test]
fn value_completion_hints() {
    let cases = [
        (ValueHint::Unknown, None),
        (ValueHint::Other, Some("( )")),
        (ValueHint::AnyPath, Some("_files")),
        (ValueHint::FilePath, Some("_files")),
        (ValueHint::DirPath, Some("_files -/")),
        (ValueHint::ExecutablePath, Some("_absolute_command_paths")),
        (ValueHint::CommandName, Some("_command_names -e")),
        (ValueHint::CommandString, Some("_cmdstring")),
        (ValueHint::CommandWithArguments, Some("_cmdambivalent")),
        (ValueHint::Username, Some("_users")),
        (ValueHint::Hostname, Some("_hosts")),
        (ValueHint::Url, Some("_urls")),
        (ValueHint::EmailAddress, Some("_email_addresses")),
    ];
    for (hint, expected) in cases.iter() {
        let mut a = arg("x");
        a.value_hint = *hint;
        assert_eq!(value_completion(&a), expected.map(|e| e.to_string()));
    }
}

#[test]
fn arg_conflicts_lists_short_and_long() {
    let mut a = arg("verbose");
    assert_eq!(arg_conflicts(&a, None), "");
    a.conflicts = vec![Some(vec![
        switch(Some('q'), Some("quiet")),
        switch(None, Some("silent")),
        switch(Some('s'), None),
    ])];
    assert_eq!(arg_conflicts(&a, None), "(-q --quiet --silent -s)");
    assert_eq!(arg_conflicts(&a, Some(3)), "(-q --quiet --silent -s)");
}

#[test]
fn arg_conflicts_of_global_arg_come_from_the_asking_command() {
    let mut a = arg("verbose");
    a.global = true;
    a.conflicts = vec![
        Some(vec![switch(Some('q'), None)]),
        Some(vec![switch(None, Some("color"))]),
        Some(Vec::new()),
    ];
    assert_eq!(arg_conflicts(&a, None), "(-q)");
    assert_eq!(arg_conflicts(&a, Some(0)), "(-q)");
    assert_eq!(arg_conflicts(&a, Some(1)), "(--color)");
    assert_eq!(arg_conflicts(&a, Some(2)), "");
}

#[test]
fn arg_conflicts_with_positional_only() {
    let mut a = arg("verbose");
    a.conflicts = vec![Some(vec![switch(None, None)])];
    assert_eq!(arg_conflicts(&a, None), "()");
}

#[test]
fn write_opts_of_all_forms() {
    let mut o = arg("config");
    o.short = Some('c');
    o.long = Some("config".to_string());
    o.visible_short_aliases = Some(vec!['C', 'k']);
    o.help = Some("a [file]".to_string());
    o.multiple_values = true;
    o.value_hint = ValueHint::FilePath;
    o.conflicts = vec![Some(vec![switch(Some('n'), None)])];
    let mut p = app("a", Some("a"));
    p.opts.push(o);
    let mut o2 = arg("level");
    o2.long = Some("level".to_string());
    p.opts.push(o2);
    assert_eq!(
        write_opts_of(&p, None),
        lines(&[
            "'(-n)*-c+[a \\[file\\]]: :_files' \\",
            "'(-n)*-C+[a \\[file\\]]: :_files' \\",
            "'(-n)*-k+[a \\[file\\]]: :_files' \\",
            "'(-n)*--config=[a \\[file\\]]: :_files' \\",
            "'--level=[]' \\",
        ])
    );
}

#[test]
fn write_opts_of_aliases_need_a_short() {
    let mut o = arg("config");
    o.long = Some("config".to_string());
    o.visible_short_aliases = Some(vec!['C']);
    o.multiple_occurrences = true;
    let mut p = app("a", Some("a"));
    p.opts.push(o);
    assert_eq!(write_opts_of(&p, None), "'*--config=[]' \\");
    assert_eq!(write_opts_of(&app("b", None), None), "");
}

#[test]
fn write_flags_of_all_forms() {
    let mut f = arg("verbose");
    f.short = Some('v');
    f.long = Some("verbose".to_string());
    f.visible_short_aliases = Some(vec!['V']);
    f.help = Some("it's loud".to_string());
    f.multiple_occurrences = true;
    f.multiple_values = true;
    f.possible_values = Some(vec!["x".to_string()]);
    let mut p = app("a", Some("a"));
    p.flags.push(f);
    let mut g = arg("quiet");
    g.short = Some('q');
    g.multiple_values = true;
    p.flags.push(g);
    assert_eq!(
        write_flags_of(&p, None),
        lines(&[
            "'*-v[it'\\''s loud]' \\",
            "'*-V[it'\\''s loud]' \\",
            "'*--verbose[it'\\''s loud]' \\",
            "'-q[]' \\",
        ])
    );
}

#[test]
fn write_positionals_of_cardinalities() {
    let mut a = arg("input");
    a.required = true;
    a.help = Some("the [in]put: file".to_string());
    a.value_hint = ValueHint::AnyPath;
    let mut b = arg("rest");
    b.multiple_values = true;
    b.possible_values = Some(vec!["a b".to_string()]);
    let c = arg("opt");
    let mut p = app("a", Some("a"));
    p.positionals = vec![a, b, c];
    assert_eq!(
        write_positionals_of(&p),
        lines(&[
            "':input -- the \\[in\\]put\\: file:_files' \\",
            "'*::rest:(a\\ b)' \\",
            "'::opt:' \\",
        ])
    );
}

#[test]
fn get_args_of_without_subcommands() {
    let mut p = app("a", Some("a"));
    assert_eq!(
        get_args_of(&p, None),
        lines(&["_arguments \"${_arguments_options[@]}\" \\", "&& ret=0"])
    );
    p.flags.push(help_flag());
    assert_eq!(
        get_args_of(&p, None),
        lines(&[
            "_arguments \"${_arguments_options[@]}\" \\",
            "'-h[Print help information]' \\",
            "'--help[Print help information]' \\",
            "&& ret=0",
        ])
    );
}

#[test]
fn get_args_of_with_subcommands() {
    let mut p = app("remote", Some("git remote"));
    p.subcommands.push(app("add", Some("git remote add")));
    assert_eq!(
        get_args_of(&p, None),
        lines(&[
            "_arguments \"${_arguments_options[@]}\" \\",
            "\":: :_git__remote_commands\" \\",
            "\"*::: :->remote\" \\",
            "&& ret=0",
        ])
    );
}

#[test]
fn subcommands_of_names_and_aliases() {
    let mut p = app("git", Some("git"));
    let mut add = app("add", Some("git add"));
    add.about = Some("Add [files]".to_string());
    add.visible_aliases = vec!["a".to_string(), "ad".to_string()];
    p.subcommands.push(add);
    p.subcommands.push(app("rm", Some("git rm")));
    assert_eq!(
        subcommands_of(&p),
        lines(&[
            "\"add:Add \\[files\\]\" \\",
            "\"a:Add \\[files\\]\" \\",
            "\"ad:Add \\[files\\]\" \\",
            "\"rm:\" \\",
        ])
    );
    assert_eq!(subcommands_of(&app("x", None)), "");
}

fn tree() -> App {
    let mut c = app("c", Some("a b c"));
    c.about = Some("third".to_string());
    let mut b = app("b", Some("a b"));
    b.subcommands.push(c);
    let d = app("d", Some("a d"));
    let mut a = app("a", Some("a"));
    a.subcommands.push(b);
    a.subcommands.push(d);
    a
}

#[test]
fn parser_of_finds_by_bin_name() {
    let t = tree();
    assert_eq!(parser_of(&t, "a b c").map(|q| q.name.clone()), Some("c".to_string()));
    assert_eq!(parser_of(&t.subcommands[0], "a b c").map(|q| q.name.clone()), Some("c".to_string()));
    assert_eq!(parser_of(&t, "a").map(|q| q.name.clone()), Some("a".to_string()));
    assert_eq!(parser_of(&t, "a d").map(|q| q.name.clone()), Some("d".to_string()));
    assert!(parser_of(&t, "a x").is_none());
    assert!(parser_of(&t, "").is_none());
    let nameless = app("n", None);
    assert_eq!(parser_of(&nameless, "").map(|q| q.name.clone()), Some("n".to_string()));
}

#[test]
fn parser_of_takes_first_in_preorder() {
    let mut first = app("first", Some("dup"));
    first.subcommands.push(app("inner", Some("dup")));
    let mut root = app("root", Some("root"));
    root.subcommands.push(first);
    root.subcommands.push(app("second", Some("dup")));
    assert_eq!(parser_of(&root, "dup").map(|q| q.name.clone()), Some("first".to_string()));
}

#[test]
fn subcommands_and_all_subcommands() {
    let t = tree();
    assert_eq!(
        Zsh::subcommands(&t),
        vec![("b".to_string(), "a b".to_string()), ("d".to_string(), "a d".to_string())]
    );
    assert_eq!(
        Zsh::all_subcommands(&t),
        vec![
            ("b".to_string(), "a b".to_string()),
            ("d".to_string(), "a d".to_string()),
            ("c".to_string(), "a b c".to_string()),
        ]
    );
    assert!(Zsh::all_subcommands(&app("x", Some("x"))).is_empty());
}

#[test]
fn compare_chars_is_string_order() {
    let v = |s: &str| s.chars().collect::<Vec<char>>();
    assert!(matches!(compare_chars(&v("a"), &v("b")), Comparison::Less));
    assert!(matches!(compare_chars(&v("ab"), &v("a")), Comparison::Greater));
    assert!(matches!(compare_chars(&v(""), &v("")), Comparison::Equal));
    assert!(matches!(compare_chars(&v("Z"), &v("a")), Comparison::Less));
    assert!(matches!(compare_chars(&v("é"), &v("z")), Comparison::Greater));
    assert!("é" > "z");
}

#[test]
fn sort_distinct_sorts_and_dedups() {
    let k = |a: &str, b: &str| (a.chars().collect::<Vec<char>>(), b.chars().collect::<Vec<char>>());
    let input = vec![k("b", "x"), k("a", "z"), k("b", "x"), k("a", "y"), k("", "q")];
    let out = sort_distinct(input.clone());
    let mut expected = input;
    expected.sort();
    expected.dedup();
    assert_eq!(out, expected);
    assert_eq!(out.len(), 4);
}

#[test]
fn subcommand_details_sorted_functions() {
    let t = tree();
    let expected = lines(&[
        "(( $+functions[_a_commands] )) ||",
        "_a_commands() {",
        "    local commands; commands=(",
        "        \"b:\" \\",
        "\"d:\" \\",
        "    )",
        "    _describe -t commands 'a commands' commands \"$@\"",
        "}",
        "(( $+functions[_a__b_commands] )) ||",
        "_a__b_commands() {",
        "    local commands; commands=(",
        "        \"c:third\" \\",
        "    )",
        "    _describe -t commands 'a b commands' commands \"$@\"",
        "}",
        "(( $+functions[_a__b__c_commands] )) ||",
        "_a__b__c_commands() {",
        "    local commands; commands=(",
        "        ",
        "    )",
        "    _describe -t commands 'a b c commands' commands \"$@\"",
        "}",
        "(( $+functions[_a__d_commands] )) ||",
        "_a__d_commands() {",
        "    local commands; commands=(",
        "        ",
        "    )",
        "    _describe -t commands 'a d commands' commands \"$@\"",
        "}",
    ]);
    assert_eq!(subcommand_details(&t), expected);
}

#[test]
fn subcommand_details_dedups_pairs() {
    let mut root = app("r", Some("r"));
    let mut x = app("x", Some("r x"));
    x.subcommands.push(app("y", Some("r y")));
    root.subcommands.push(x);
    root.subcommands.push(app("y", Some("r y")));
    let details = subcommand_details(&root);
    assert_eq!(details.matches("_r__y_commands() {").count(), 1);
    assert_eq!(details.matches("_r__x_commands() {").count(), 1);
}

#[test]
fn get_subcommands_of_nested() {
    let t = tree();
    let expected = lines(&[
        "case $state in",
        "    (a)",
        "        words=($line[1] \"${words[@]}\")",
        "        (( CURRENT += 1 ))",
        "        curcontext=\"${curcontext%:*:*}:a-command-$line[1]:\"",
        "        case $line[1] in",
        "            (b)",
        "_arguments \"${_arguments_options[@]}\" \\",
        "\":: :_a__b_commands\" \\",
        "\"*::: :->b\" \\",
        "&& ret=0",
        "case $state in",
        "    (b)",
        "        words=($line[1] \"${words[@]}\")",
        "        (( CURRENT += 1 ))",
        "        curcontext=\"${curcontext%:*:*}:a-b-command-$line[1]:\"",
        "        case $line[1] in",
        "            (c)",
        "_arguments \"${_arguments_options[@]}\" \\",
        "&& ret=0",
        ";;",
        "        esac",
        "    ;;",
        "esac",
        ";;",
        "(d)",
        "_arguments \"${_arguments_options[@]}\" \\",
        "&& ret=0",
        ";;",
        "        esac",
        "    ;;",
        "esac",
    ]);
    assert_eq!(get_subcommands_of(&t), expected);
    assert_eq!(get_subcommands_of(&app("x", Some("x"))), "");
}

#[test]
fn get_subcommands_of_counts_positionals() {
    let mut p = app("a", Some("a"));
    for i in 0..9 {
        p.positionals.push(arg(&format!("p{}", i)));
    }
    p.subcommands.push(app("s", Some("a s")));
    let text = get_subcommands_of(&p);
    assert!(text.contains("words=($line[10] \"${words[@]}\")"));
    assert!(text.contains("case $line[10] in"));
}

#[test]
fn generate_my_app() {
    let expected = lines(&[
        "#compdef my_app",
        "",
        "autoload -U is-at-least",
        "",
        "_my_app() {",
        "    typeset -A opt_args",
        "    typeset -a _arguments_options",
        "    local ret=1",
        "",
        "    if is-at-least 5.2; then",
        "        _arguments_options=(-s -S -C)",
        "    else",
        "        _arguments_options=(-s -C)",
        "    fi",
        "",
        "    local context curcontext=\"$curcontext\" state line",
        "    _arguments \"${_arguments_options[@]}\" \\",
        "'-h[Print help information]' \\",
        "'--help[Print help information]' \\",
        "'::file -- some input file:' \\",
        "\":: :_my_app_commands\" \\",
        "\"*::: :->my_app\" \\",
        "&& ret=0",
        "    case $state in",
        "    (my_app)",
        "        words=($line[2] \"${words[@]}\")",
        "        (( CURRENT += 1 ))",
        "        curcontext=\"${curcontext%:*:*}:my_app-command-$line[2]:\"",
        "        case $line[2] in",
        "            (test)",
        "_arguments \"${_arguments_options[@]}\" \\",
        "'--case=[the case to test]' \\",
        "'-h[Print help information]' \\",
        "'--help[Print help information]' \\",
        "&& ret=0",
        ";;",
        "        esac",
        "    ;;",
        "esac",
        "}",
        "",
        "(( $+functions[_my_app_commands] )) ||",
        "_my_app_commands() {",
        "    local commands; commands=(",
        "        \"test:tests things\" \\",
        "    )",
        "    _describe -t commands 'my_app commands' commands \"$@\"",
        "}",
        "(( $+functions[_my_app__test_commands] )) ||",
        "_my_app__test_commands() {",
        "    local commands; commands=(",
        "        ",
        "    )",
        "    _describe -t commands 'my_app test commands' commands \"$@\"",
        "}",
        "",
        "_my_app \"$@\"",
    ]);
    let a = my_app();
    assert!(Zsh::can_generate(&a));
    assert_eq!(Zsh::generate(&a), expected);
    assert_eq!(Zsh::try_generate(&a), Some(expected));
}

#[test]
fn generate_leaf_program() {
    let a = app("tool", Some("tool"));
    let script = Zsh::generate(&a);
    assert!(script.starts_with("#compdef tool\n"));
    assert!(script.ends_with("\n\n_tool \"$@\""));
    assert!(script.contains(
        "    _arguments \"${_arguments_options[@]}\" \\\n&& ret=0\n    \n}\n\n(( $+functions[_tool_commands] ))"
    ));
}

#[test]
fn cannot_generate_without_bin_names() {
    let mut a = app("a", None);
    assert!(!Zsh::can_generate(&a));
    assert_eq!(Zsh::try_generate(&a), None);
    a.bin_name = Some("a".to_string());
    a.subcommands.push(app("b", None));
    assert!(!Zsh::can_generate(&a));
    assert_eq!(Zsh::try_generate(&a), None);
}

#[test]
fn cannot_generate_when_subcommand_shares_parent_bin_name() {
    let mut a = app("a", Some("a"));
    a.subcommands.push(app("b", Some("a")));
    assert!(!Zsh::can_generate(&a));
    assert_eq!(Zsh::try_generate(&a), None);
}

#[test]
fn can_generate_with_shared_bin_names_below() {
    // The lookup of "dup" from the root finds `first`, a command below the root.
    let mut first = app("first", Some("dup"));
    first.subcommands.push(app("inner", Some("inner")));
    let mut root = app("root", Some("root"));
    root.subcommands.push(first);
    root.subcommands.push(app("second", Some("dup")));
    assert!(Zsh::can_generate(&root));
    let script = Zsh::generate(&root);
    assert_eq!(script.matches("\n(second)\n_arguments \"${_arguments_options[@]}\" \\\n\":: :_dup_commands\" \\").count(), 1);
}

#[test]
fn escaping_keeps_distinct_texts_distinct() {
    let texts = ["a'", "a\\'", "[", "\\[", "'\\''", "'", "", " ", "\\ "];
    for a in texts.iter() {
        for b in texts.iter() {
            assert_eq!(a == b, escape_help(a) == escape_help(b));
            assert_eq!(a == b, escape_value(a) == escape_value(b));
        }
    }
}

#[test]
fn escaped_brackets_follow_backslashes() {
    let e = escape_help("[x] ]]\\[");
    let chars: Vec<char> = e.chars().collect();
    for (i, c) in chars.iter().enumerate() {
        if *c == '[' || *c == ']' {
            assert!(i > 0 && chars[i - 1] == '\\');
        }
    }
    let v = escape_value("a (b) c");
    let chars: Vec<char> = v.chars().collect();
    for (i, c) in chars.iter().enumerate() {
        if *c == '(' || *c == ')' || *c == ' ' {
            assert!(i > 0 && chars[i - 1] == '\\');
        }
    }
}

#[test]
fn arguments_call_frame() {
    let t = my_app();
    for with_parent in [None, Some(1)] {
        let text = get_args_of(&t.subcommands[0], with_parent);
        assert!(text.starts_with("_arguments \"${_arguments_options[@]}\" \\"));
        assert!(text.ends_with("&& ret=0"));
    }
}

#[test]
fn get_subcommands_of_leaf_without_bin_name() {
    assert_eq!(get_subcommands_of(&app("leaf", None)), "");
}

#[test]
fn details_list_each_command_once() {
    let details = subcommand_details(&tree());
    for bin in ["_a__b_commands() {", "_a__d_commands() {", "_a__b__c_commands() {", "_a_commands() {"] {
        assert_eq!(details.matches(bin).count(), 1);
    }
}

#[test]
fn conflicts_of_global_arg_asked_of_the_block_writer() {
    // The lookup of "dup" from the root lands on `b`, two levels below it, so the root's
    // block lists the conflicts of `b`'s global argument as the root reports them.
    let mut v = arg("verbose");
    v.long = Some("verbose".to_string());
    v.global = true;
    v.conflicts = vec![
        None,
        Some(vec![switch(Some('y'), None)]),
        Some(vec![switch(Some('z'), None)]),
    ];
    let mut b = app("b", Some("dup"));
    b.flags.push(v);
    let mut a = app("a", Some("r a"));
    a.subcommands.push(b);
    let mut root = app("r", Some("r"));
    root.subcommands.push(a);
    root.subcommands.push(app("c", Some("dup")));
    assert!(Zsh::can_generate(&root));
    let script = Zsh::generate(&root);
    assert!(script.contains(
        "\n(c)\n_arguments \"${_arguments_options[@]}\" \\\n'(-z)--verbose[]' \\\n&& ret=0\n;;"
    ));
    assert!(script.contains(
        "(b)\n_arguments \"${_arguments_options[@]}\" \\\n'(-y)--verbose[]' \\\n&& ret=0\n;;"
    ));
}

#[test]
fn cannot_generate_when_conflicts_cannot_be_told() {
    let mut v = arg("verbose");
    v.long = Some("verbose".to_string());
    v.global = true;
    v.conflicts = vec![Some(Vec::new()), None];
    let mut b = app("b", Some("r b"));
    b.flags.push(v);
    let mut root = app("r", Some("r"));
    root.subcommands.push(b);
    assert!(!Zsh::can_generate(&root));
    assert_eq!(Zsh::try_generate(&root), None);
    let mut top = app("t", Some("t"));
    let mut w = arg("w");
    w.long = Some("w".to_string());
    w.conflicts = Vec::new();
    top.opts.push(w);
    assert!(!Zsh::can_generate(&top));
}
