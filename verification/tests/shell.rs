//! Splitting commands and finding what they write over.

use termaxa::shell::{has_substitution, redirect_targets, split_segments, Overwrite};

/// A command that destroys a file by writing over it must be visible.
#[test]
fn truncating_redirects_are_extracted() {
    let r = redirect_targets("cat /dev/null > .env");
    assert_eq!(r.len(), 1);
    assert_eq!(r[0].target, ".env");
    assert!(r[0].truncates);

    assert_eq!(
        redirect_targets("ls -la > /etc/hosts")[0].target,
        "/etc/hosts"
    );
    assert_eq!(
        redirect_targets("echo x >config.json")[0].target,
        "config.json"
    );
    assert_eq!(
        redirect_targets(r#"echo x > "my file.txt""#)[0].target,
        "my file.txt"
    );
}

/// Appending does not destroy. A gate that treats `>>` as destructive
/// fires on every log line and gets uninstalled.
#[test]
fn appending_is_recorded_but_not_truncating() {
    let r = redirect_targets("echo entry >> app.log");
    assert_eq!(r.len(), 1);
    assert_eq!(r[0].target, "app.log");
    assert!(!r[0].truncates, ">> appends, it does not destroy");
}

/// Descriptor plumbing names no file. This is the same distinction
/// `is_redirection_amp` makes for `&`, and getting it wrong would fire
/// on ordinary `2>&1`.
#[test]
fn descriptor_redirects_are_not_file_targets() {
    for cmd in [
        "make 2>&1",
        "cmd >&2",
        "cmd <&-",
        "cmd &> log",
        "cmd &>> log",
        "make 2>&1 | tee out",
    ] {
        assert!(
            redirect_targets(cmd).is_empty(),
            "{cmd} redirects a descriptor, it does not truncate a file"
        );
    }
}

/// A `>` inside quotes is text, not an operator — the same property the
/// segment splitter already guarantees, from the same scanner.
#[test]
fn quoted_redirects_are_text() {
    assert!(redirect_targets(r#"echo "a > b""#).is_empty());
    assert!(redirect_targets("echo 'x > y'").is_empty());
    assert!(redirect_targets(r#"git commit -m "fix > bug""#).is_empty());
}

/// Sinks destroy nothing, and `> /dev/null` is the most common redirect
/// in existence.
#[test]
fn sinks_are_not_targets() {
    for cmd in [
        "cargo test > /dev/null",
        "cmd 2> /dev/null",
        "make >/dev/null 2>&1",
        "cat big > /dev/zero",
        "echo x > NUL",
    ] {
        assert!(
            redirect_targets(cmd).is_empty(),
            "{cmd} truncates a sink, not a file"
        );
    }
}

/// `>(...)` is an operator: `tee >(gzip)` hands tee a pipe.
#[test]
fn process_substitution_is_not_a_target() {
    for cmd in ["tee >(gzip -c) < data", "diff x >(sort)", "cmd > >(bar)"] {
        assert!(
            redirect_targets(cmd)
                .iter()
                .all(|o| !o.target.starts_with('(')),
            "{cmd}: a paren is an operator, not a filename"
        );
    }
    assert!(redirect_targets("tee >(gzip -c) < data").is_empty());
}

/// `\>` outside quotes is a literal; `>|` clobbers — a truncation of the
/// named file; `<>` opens read-write and destroys nothing.
#[test]
fn escapes_clobber_and_read_write_open() {
    assert!(redirect_targets(r"echo a \> b").is_empty());
    let r = redirect_targets("cmd >| forced.txt");
    assert_eq!(r.len(), 1);
    assert_eq!(r[0].target, "forced.txt");
    assert!(r[0].truncates);
    assert!(redirect_targets("cmd <> rw.txt").is_empty());
}

#[test]
fn several_redirects_in_one_segment() {
    let r = redirect_targets("cmd > out.txt 2> err.txt");
    assert_eq!(r.len(), 2);
    assert_eq!(r[0].target, "out.txt");
    assert_eq!(r[1].target, "err.txt");
}

#[test]
fn splits_the_field_report_command() {
    let cmd = r#"git status && echo "---" && git branch -vv && git log --oneline -5"#;
    let seg = split_segments(cmd);
    assert_eq!(
        seg,
        vec![
            "git status",
            r#"echo "---""#,
            "git branch -vv",
            "git log --oneline -5"
        ]
    );
}

#[test]
fn splits_all_operators() {
    assert_eq!(
        split_segments("a; b | c || d && e"),
        vec!["a", "b", "c", "d", "e"]
    );
}

#[test]
fn quotes_protect_operators() {
    assert_eq!(split_segments("echo 'a && b'"), vec!["echo 'a && b'"]);
    assert_eq!(split_segments(r#"echo "x; y""#), vec![r#"echo "x; y""#]);
}

#[test]
fn redirections_survive() {
    // `&` inside a redirection is not an operator
    assert_eq!(split_segments("cmd 2>&1"), vec!["cmd 2>&1"]);
    assert_eq!(split_segments("cmd >&2"), vec!["cmd >&2"]);
    assert_eq!(split_segments("cmd &> log"), vec!["cmd &> log"]);
    assert_eq!(split_segments("cmd &>> log"), vec!["cmd &>> log"]);
    assert_eq!(split_segments("cmd <&-"), vec!["cmd <&-"]);
    assert_eq!(
        split_segments("make 2>&1 | tee log"),
        vec!["make 2>&1", "tee log"]
    );
}

/// `&` backgrounds the left-hand command and starts a new one.
#[test]
fn a_lone_ampersand_splits() {
    assert_eq!(
        split_segments("git status & rm -rf /"),
        vec!["git status", "rm -rf /"]
    );
    assert_eq!(split_segments("ls & rm -rf /"), vec!["ls", "rm -rf /"]);
    assert_eq!(split_segments("npm run dev &"), vec!["npm run dev"]);
    assert_eq!(split_segments("a & b & c"), vec!["a", "b", "c"]);
    // no spaces required, exactly as the shell reads it
    assert_eq!(
        split_segments("echo hi&rm -rf /"),
        vec!["echo hi", "rm -rf /"]
    );
}

/// A newline separates commands just as `;` does.
#[test]
fn newlines_split_too() {
    assert_eq!(
        split_segments("git status\nrm -rf /"),
        vec!["git status", "rm -rf /"]
    );
}

#[test]
fn substitution_detected() {
    assert!(has_substitution("echo $(rm -rf /)"));
    assert!(has_substitution("echo `whoami`"));
    assert!(!has_substitution("echo '$(safe)'"));
    assert!(!has_substitution("git status"));
}

/// Every operator outside quotes separates; blank parts are dropped.
#[test]
fn blank_parts_are_dropped() {
    assert!(split_segments("").is_empty());
    assert!(split_segments("   \t ").is_empty());
    assert!(split_segments(";;&&||\n").is_empty());
    assert_eq!(split_segments(";; a ;; b ;"), vec!["a", "b"]);
}

/// A backslash escapes inside double quotes only.
#[test]
fn escaped_quotes_stay_inside_double_quotes() {
    assert_eq!(
        split_segments(r#"echo "a \" ; b" ; c"#),
        vec![r#"echo "a \" ; b""#, "c"]
    );
    assert_eq!(split_segments(r"echo 'a \' ; b"), vec![r"echo 'a \'", "b"]);
    // Outside quotes a backslash protects nothing.
    assert_eq!(split_segments(r"a \; b"), vec![r"a \", "b"]);
}

/// One kind of quote is text inside the other.
#[test]
fn quotes_nest_as_text() {
    assert_eq!(split_segments(r#"echo "it's; fine""#), vec![r#"echo "it's; fine""#]);
    assert_eq!(split_segments(r#"echo 'say "x' ; y"#), vec![r#"echo 'say "x'"#, "y"]);
    // Quotes that never close protect the rest.
    assert_eq!(split_segments("echo 'a ; b && c"), vec!["echo 'a ; b && c"]);
}

/// White space around a command is not part of it, whatever Unicode calls it.
#[test]
fn unicode_blanks_are_trimmed() {
    assert_eq!(
        split_segments("\u{a0}ls\u{3000};\u{2003}pwd\u{85}"),
        vec!["ls", "pwd"]
    );
    assert_eq!(split_segments("écho ü; naïve"), vec!["écho ü", "naïve"]);
}

/// `&&` separates even next to a redirection.
#[test]
fn double_ampersands_always_separate() {
    assert_eq!(split_segments("a>&&b"), vec!["a>", "b"]);
    assert_eq!(split_segments("a &&& b"), vec!["a", "b"]);
    assert_eq!(split_segments("a || | b"), vec!["a", "b"]);
    // A clobbering redirection is cut at its bar.
    assert_eq!(split_segments("cmd >| f"), vec!["cmd >", "f"]);
}

/// The pieces of a line are commands themselves: splitting one again gives it
/// back.
#[test]
fn segments_are_atomic() {
    for line in [
        r#"git status && echo "---" && git branch -vv"#,
        "a; b | c || d && e",
        "make 2>&1 | tee log &",
        "echo 'a && b' & rm -rf /",
    ] {
        for segment in split_segments(line) {
            assert_eq!(split_segments(&segment), vec![segment.clone()]);
        }
    }
}

#[test]
fn targets_are_given_in_order_with_how_they_are_written() {
    assert_eq!(
        redirect_targets("a > x >> y 2>z"),
        vec![
            Overwrite {
                target: "x".to_string(),
                truncates: true
            },
            Overwrite {
                target: "y".to_string(),
                truncates: false
            },
            Overwrite {
                target: "z".to_string(),
                truncates: true
            },
        ]
    );
}

/// Quotes within a target hold it together; those at its ends are dropped.
#[test]
fn quoted_targets() {
    assert_eq!(redirect_targets("x > 'a b'/c")[0].target, "a b'/c");
    assert_eq!(redirect_targets(r#"x > a"b c"d"#)[0].target, r#"a"b c"d"#);
    assert_eq!(redirect_targets(r#"x > "'q'""#)[0].target, "q");
    assert!(redirect_targets("x > ''").is_empty());
    assert!(redirect_targets("x >").is_empty());
    assert!(redirect_targets("x >   ").is_empty());
}

/// Sinks are recognised in any ASCII case and only as a whole.
#[test]
fn sinks_are_matched_whole() {
    for sink in [
        "/dev/null",
        "/dev/zero",
        "/dev/stdout",
        "/dev/stderr",
        "/dev/tty",
        "/dev/full",
        "nul",
        "NuL",
        "/DEV/NULL",
        "'/dev/null'",
    ] {
        assert!(redirect_targets(&format!("cmd > {sink}")).is_empty(), "{sink}");
        assert!(redirect_targets(&format!("cmd >> {sink}")).is_empty(), "{sink}");
    }
    assert_eq!(redirect_targets("cmd > /dev/null2")[0].target, "/dev/null2");
    assert_eq!(redirect_targets("cmd > nul.txt")[0].target, "nul.txt");
}

/// A process substitution is a pipe, also where another operator writes to it.
#[test]
fn redirection_into_a_process_substitution() {
    for cmd in [
        "cmd > >(bar)",
        "cmd >> >(bar)",
        "cmd >| >(bar)",
        "cmd >>>(bar)",
        "cmd 2> >(tee log)",
        "cmd > (bar)",
        "echo \"x\" > >(bar)",
    ] {
        assert!(redirect_targets(cmd).is_empty(), "{cmd}");
    }
    // What the substituted command writes itself is still seen.
    let r = redirect_targets("cmd > >(cat > out.txt) ");
    assert_eq!(r.len(), 1);
    assert_eq!(r[0].target, "out.txt)");
    // In quotes it is a name.
    assert_eq!(redirect_targets("cmd > '>(bar)'")[0].target, ">(bar)");
}

/// What stands before a redirection does not hide it.
#[test]
fn redirections_behind_quotes_escapes_and_others() {
    assert_eq!(redirect_targets("echo \"x\" > .env")[0].target, ".env");
    assert_eq!(redirect_targets("echo 'a > b' \\> c > .env")[0].target, ".env");
    let r = redirect_targets("a 2>&1 > x >> 'y z' >|w");
    assert_eq!(r.len(), 3);
    assert_eq!(r[0].target, "x");
    assert_eq!(r[1].target, "y z");
    assert!(!r[1].truncates);
    assert_eq!(r[2].target, "w");
    assert!(r[2].truncates);
}

#[test]
fn escapes_hide_what_they_escape() {
    assert!(redirect_targets(r#"echo "a \" > b""#).is_empty());
    assert!(redirect_targets(r"echo \'a > b").len() == 1);
    assert_eq!(redirect_targets(r"echo 'a\' > b")[0].target, "b");
    // A backslash at the very end escapes nothing.
    assert_eq!(redirect_targets(r"echo > b\")[0].target, r"b\");
}

#[test]
fn substitution_edges() {
    assert!(!has_substitution(""));
    assert!(!has_substitution("echo $HOME"));
    assert!(!has_substitution("price $"));
    assert!(has_substitution("\"$(x)\""));
    assert!(has_substitution("'a' $(b)"));
    assert!(!has_substitution("'`x`'"));
    // Double quotes do not close single ones.
    assert!(!has_substitution("'\"' '$(x)'"));
    // An apostrophe in double quotes opens nothing.
    assert!(has_substitution("echo \"it's $(rm -rf /)\""));
    assert!(has_substitution("echo \"it's `x`\""));
    assert!(has_substitution("\"'$(x)'\""));
    // Apostrophes that do not pair up leave doubt, and in doubt it is reported.
    assert!(has_substitution("\"it's\" '$(x)'"));
    assert!(has_substitution("echo \\' '$(x)'"));
    // Nor does one behind a backslash; in single quotes a backslash is text.
    assert!(has_substitution("echo \\'$(x)"));
    assert!(has_substitution("\"a \\\" it's\" $(x)"));
    assert!(has_substitution("'a\\' $(x)"));
    assert!(!has_substitution("\\\"'$(x)'"));
    // An escaped sign is reported all the same.
    assert!(has_substitution("echo \\$(x)"));
}

/// What stands between the commands of a line is white space and operators.
#[test]
fn nothing_of_a_line_is_lost() {
    for line in [
        "git status && echo \"a;b\" | tee x & ; ls\n\n pwd 2>&1 &",
        "  a||b&&c;d|e&f\ng  ",
        "cmd &> log; x >& 2 | y <&- & z",
        "",
        ";",
    ] {
        let mut rest = line;
        for segment in split_segments(line) {
            let at = rest.find(&segment).expect("a command stands in its line");
            assert!(rest[..at]
                .chars()
                .all(|c| c.is_whitespace() || ";|&".contains(c)));
            rest = &rest[at + segment.len()..];
        }
        assert!(rest
            .chars()
            .all(|c| c.is_whitespace() || ";|&".contains(c)));
    }
}

/// A line with an operator between two parts gives the commands of both.
#[test]
fn an_operator_separates_whatever_stands_around_it() {
    for op in [";", "\n", "|", "&", "||", "&&"] {
        for a in ["ls", "echo 'x;y' ; pwd", "make 2>&1", "", "a \"b\\\" | c\""] {
            for b in ["rm -rf /", "", "cat 'z", "x; y"] {
                let mut want = split_segments(a);
                want.extend(split_segments(b));
                assert_eq!(split_segments(&format!("{a}{op}{b}")), want, "{a:?} {op:?} {b:?}");
            }
        }
    }
}

/// Quotes protect what they hold and nothing else.
#[test]
fn quoted_text_joins_the_command_it_stands_in() {
    assert_eq!(
        split_segments("a; b \"x && y | z\" c; d"),
        vec!["a", "b \"x && y | z\" c", "d"]
    );
    assert!(redirect_targets("echo '> a' \"> \\\" > b\"").is_empty());
    assert_eq!(redirect_targets("echo '> a' > b").len(), 1);
}
