use qiish::cat::{inputs, Input};
use qiish::cp::{allows_replacing, recreate_after_removal, CpCheck, CpComplaint, CpNext, CpPlan, DataCP};
use qiish::listing::{ls_target, sort_by_name, sort_files_dirs, Entry, LsOptions, LsTarget};
use qiish::qiish::{
    builtin_of, cd_status, cd_target, echo_text, ends_shell, env_pairs, exit_report, lines_of,
    mkdir_check, mkdir_status, path_base, prompt, prompt_names, split_command, value_of, Builtin,
    ExitReport, MkdirCheck, PathBase, Qiish,
};
use qiish::rm::{status_after_removal, DataRM, RmStep};
use qiish::text::{chars_of, is_whitespace_char, trim_bounds};

fn strings(words: &[&str]) -> Vec<String> {
    words.iter().map(|w| w.to_string()).collect()
}

fn entry(name: &str, is_dir: bool) -> Entry {
    Entry {
        name: name.to_string(),
        is_dir,
    }
}

fn pairs(list: &[(&str, &str)]) -> Vec<(String, String)> {
    list.iter()
        .map(|(k, v)| (k.to_string(), v.to_string()))
        .collect()
}

#[test]
fn rm_reads_options_and_targets() {
    let data = DataRM::generate_rm_data(vec!["a", "-r", "b"]).unwrap();
    assert!(data.recursive);
    assert_eq!(data.to_remove, strings(&["a", "b"]));
    let none = DataRM::generate_rm_data(vec![]).unwrap();
    assert!(!none.recursive);
    assert_eq!(none.to_remove, Vec::<String>::new());
}

#[test]
fn rm_last_option_decides() {
    assert!(!DataRM::generate_rm_data(vec!["-r", "-f"]).unwrap().recursive);
    assert!(DataRM::generate_rm_data(vec!["-f", "-R"]).unwrap().recursive);
    assert!(DataRM::generate_rm_data(vec!["--recursive"]).unwrap().recursive);
    assert!(!DataRM::generate_rm_data(vec!["--recursive", "-x"]).unwrap().recursive);
    assert!(DataRM::generate_rm_data(vec!["--force"]).unwrap().recursive);
    assert!(DataRM::generate_rm_data(vec!["-r", "r"]).unwrap().recursive);
}

#[test]
fn rm_steps() {
    let plain = DataRM {
        recursive: false,
        to_remove: vec![],
    };
    let deep = DataRM {
        recursive: true,
        to_remove: vec![],
    };
    assert_eq!(plain.step(false, false), RmStep::Missing);
    assert_eq!(plain.step(false, true), RmStep::Missing);
    assert_eq!(plain.step(true, true), RmStep::NeedsRecursive);
    assert_eq!(plain.step(true, false), RmStep::Remove);
    assert_eq!(deep.step(true, true), RmStep::Remove);
    assert_eq!(deep.step(false, true), RmStep::Missing);
    assert_eq!(status_after_removal(true), 0);
    assert_eq!(status_after_removal(false), -1);
}

#[test]
fn cp_reads_arguments_and_flags() {
    let data = DataCP::from((strings(&["a", "b", "c"]), strings(&["r", "n"])));
    assert_eq!(data.source, strings(&["a", "b"]));
    assert_eq!(data.destination, "c");
    assert!(data.recursive);
    assert!(data.no_clobber);
    assert!(!data.interactive);
    let long = DataCP::from((strings(&["a"]), strings(&["interactive", "no-clobber", "recursive"])));
    assert_eq!(long.source, Vec::<String>::new());
    assert_eq!(long.destination, "a");
    assert!(long.interactive && long.no_clobber && long.recursive);
    let short = DataCP::from((strings(&["a", "b"]), strings(&["i", "x"])));
    assert!(short.interactive && !short.no_clobber && !short.recursive);
}

#[test]
fn cp_without_arguments_has_nothing() {
    let data = DataCP::from((vec![], vec![]));
    assert_eq!(data.source, Vec::<String>::new());
    assert_eq!(data.destination, "");
    assert_eq!(data.check(), CpCheck::MissingInput);
}

#[test]
fn cp_checks_its_arguments() {
    assert_eq!(
        DataCP::from((strings(&["a"]), vec![])).check(),
        CpCheck::MissingInput
    );
    assert_eq!(
        DataCP::from((strings(&["a", ""]), vec![])).check(),
        CpCheck::MissingDestination
    );
    assert_eq!(
        DataCP::from((strings(&["a", "b"]), vec![])).check(),
        CpCheck::Ready
    );
}

fn cp_data(flags: &[&str]) -> DataCP {
    DataCP::from((strings(&["a", "b"]), strings(flags)))
}

#[test]
fn cp_plans_for_a_destination_directory() {
    assert_eq!(
        cp_data(&[]).plan(true, true, false),
        CpPlan {
            not_recursive: true,
            complaint: None,
            failed: true,
            next: CpNext::RemoveDirectory
        }
    );
    assert_eq!(
        cp_data(&["r"]).plan(true, true, false),
        CpPlan {
            not_recursive: false,
            complaint: None,
            failed: false,
            next: CpNext::RemoveDirectory
        }
    );
    assert_eq!(
        cp_data(&["r", "i"]).plan(true, true, true),
        CpPlan {
            not_recursive: false,
            complaint: None,
            failed: false,
            next: CpNext::AskDirectory
        }
    );
    assert_eq!(
        cp_data(&["r", "i", "n"]).plan(true, true, true),
        CpPlan {
            not_recursive: false,
            complaint: Some(CpComplaint::FileExists),
            failed: true,
            next: CpNext::Nothing
        }
    );
    assert_eq!(
        cp_data(&[]).plan(true, false, true),
        CpPlan {
            not_recursive: true,
            complaint: None,
            failed: true,
            next: CpNext::Nothing
        }
    );
}

#[test]
fn cp_plans_for_a_destination_file() {
    assert_eq!(
        cp_data(&["n", "i"]).plan(false, true, false),
        CpPlan {
            not_recursive: false,
            complaint: Some(CpComplaint::CannotOverwrite),
            failed: true,
            next: CpNext::Nothing
        }
    );
    assert_eq!(
        cp_data(&["i"]).plan(false, true, false),
        CpPlan {
            not_recursive: false,
            complaint: None,
            failed: false,
            next: CpNext::AskFile
        }
    );
    assert_eq!(
        cp_data(&[]).plan(false, true, true),
        CpPlan {
            not_recursive: false,
            complaint: None,
            failed: false,
            next: CpNext::Nothing
        }
    );
}

#[test]
fn cp_plans_for_a_free_destination() {
    assert_eq!(
        cp_data(&["n"]).plan(false, false, true),
        CpPlan {
            not_recursive: false,
            complaint: None,
            failed: false,
            next: CpNext::CreateDirectory
        }
    );
    assert_eq!(
        cp_data(&[]).plan(false, false, false),
        CpPlan {
            not_recursive: false,
            complaint: None,
            failed: false,
            next: CpNext::CopyFile
        }
    );
}

#[test]
fn cp_answers() {
    assert!(allows_replacing("y"));
    assert!(allows_replacing(" y\n"));
    assert!(!allows_replacing("yes"));
    assert!(!allows_replacing("n"));
    assert!(!allows_replacing(""));
    assert!(!allows_replacing("Y"));
    assert!(!allows_replacing("y y"));
    assert!(recreate_after_removal(false));
    assert!(!recreate_after_removal(true));
}

#[test]
fn cat_inputs_in_order() {
    assert_eq!(
        inputs(&strings(&["a", "-", "b"])),
        Ok(vec![
            Input::File("a".to_string()),
            Input::Stdin,
            Input::File("b".to_string())
        ])
    );
    assert_eq!(inputs(&vec![]), Ok(vec![]));
}

#[test]
fn cat_refuses_options() {
    assert_eq!(inputs(&strings(&["a", "-n", "b", "-x"])), Err("-n".to_string()));
    assert_eq!(inputs(&strings(&["--"])), Err("--".to_string()));
}

#[test]
fn builtins_by_name() {
    let table = [
        ("", Builtin::Nothing),
        ("help", Builtin::Help),
        ("exit", Builtin::Exit),
        ("cd", Builtin::Cd),
        ("ls", Builtin::Ls),
        ("clear", Builtin::Clear),
        ("mkdir", Builtin::Mkdir),
        ("rm", Builtin::Rm),
        ("rmdir", Builtin::Rmdir),
        ("cat", Builtin::Cat),
        ("echo", Builtin::Echo),
        ("pwd", Builtin::Pwd),
        ("cp", Builtin::Cp),
        ("mv", Builtin::Unknown),
        ("LS", Builtin::Unknown),
        ("ls ", Builtin::Unknown),
    ];
    for (name, builtin) in table {
        assert_eq!(builtin_of(name), builtin);
    }
    assert!(ends_shell(Builtin::Exit));
    assert!(!ends_shell(Builtin::Nothing));
    assert!(!ends_shell(Builtin::Unknown));
}

#[test]
fn lines_split_into_name_and_arguments() {
    assert_eq!(
        split_command("ls  -a   b\n"),
        ("ls".to_string(), strings(&["-a", "b"]))
    );
    assert_eq!(split_command("exit\n"), ("exit".to_string(), vec![]));
    assert_eq!(split_command(""), (String::new(), vec![]));
    assert_eq!(split_command("  ls"), (String::new(), strings(&["ls"])));
    assert_eq!(
        split_command("\tcd\t x\ty \n"),
        ("cd".to_string(), strings(&["x", "y"]))
    );
    assert_eq!(split_command("a "), ("a".to_string(), vec![]));
}

#[test]
fn exit_codes_are_reported() {
    assert_eq!(exit_report(1), ExitReport::Error);
    assert_eq!(exit_report(i16::MAX), ExitReport::Error);
    assert_eq!(exit_report(0), ExitReport::Silent);
    assert_eq!(exit_report(-1), ExitReport::Silent);
    assert_eq!(exit_report(-2), ExitReport::Irregular);
    assert_eq!(exit_report(i16::MIN), ExitReport::Irregular);
}

#[test]
fn echo_puts_a_space_after_each_argument() {
    assert_eq!(echo_text(&strings(&["a", "b"])), "a b ");
    assert_eq!(echo_text(&vec![]), "");
    assert_eq!(echo_text(&strings(&[""])), " ");
}

#[test]
fn mkdir_and_cd_decisions() {
    assert_eq!(mkdir_check(0), MkdirCheck::NoArgument);
    assert_eq!(mkdir_check(1), MkdirCheck::Ready);
    assert_eq!(mkdir_check(2), MkdirCheck::TooMany);
    assert_eq!(mkdir_status(true), -1);
    assert_eq!(mkdir_status(false), 0);
    assert_eq!(cd_status(true), -1);
    assert_eq!(cd_status(false), 0);
    assert_eq!(cd_target(&vec![]), "~");
    assert_eq!(cd_target(&strings(&["x", "y"])), "x");
}

#[test]
fn paths_start_somewhere() {
    assert_eq!(path_base("/x/y"), PathBase::Absolute);
    assert_eq!(path_base("~/x"), PathBase::Home("/x".to_string()));
    assert_eq!(path_base("~"), PathBase::Home(String::new()));
    assert_eq!(path_base("x/~"), PathBase::Relative);
    assert_eq!(path_base(""), PathBase::Relative);
}

#[test]
fn text_splits_into_lines() {
    let as_strings = |text: &str| -> Vec<String> {
        lines_of(text)
            .into_iter()
            .map(|l| l.into_iter().collect())
            .collect()
    };
    let table = ["", "a", "a\n", "a\nb", "a\r\nb\r\n", "\n", "\n\n", "a\r", "a\r\n\r\n", "\r\n", "a\rb\n"];
    for text in table {
        let expected: Vec<String> = text.lines().map(|l| l.to_string()).collect();
        assert_eq!(as_strings(text), expected);
    }
}

#[test]
fn environment_lines_give_pairs() {
    assert_eq!(
        env_pairs("a=b\nc=d=e\n"),
        Some(pairs(&[("a", "b"), ("c", "d=e")]))
    );
    assert_eq!(env_pairs(""), Some(vec![]));
    assert_eq!(env_pairs("k=v\r\n=\n"), Some(pairs(&[("k", "v"), ("", "")])));
    assert_eq!(env_pairs("k=v\r"), Some(pairs(&[("k", "v\r")])));
}

#[test]
fn environment_line_without_equals_is_refused() {
    assert_eq!(env_pairs("a=b\r\nx"), None);
    assert_eq!(env_pairs("Could not load /dev/home/.qiishenv"), None);
    assert_eq!(env_pairs("\n"), None);
}

#[test]
fn later_pairs_go_before_earlier_ones() {
    let list = pairs(&[("a", "1"), ("b", "2"), ("a", "3")]);
    assert_eq!(value_of(&list, "a"), Some("3".to_string()));
    assert_eq!(value_of(&list, "b"), Some("2".to_string()));
    assert_eq!(value_of(&list, "c"), None);
}

#[test]
fn prompt_of_the_builtin_shell() {
    assert_eq!(prompt("pc", "me", 7, "~"), "pc#me@7 ~ % ");
    assert_eq!(prompt("", "", 0, ""), "#@0  % ");
    assert_eq!(prompt("a", "b", 10, "/"), "a#b@10 / % ");
    assert_eq!(prompt("a", "b", 100, "/"), "a#b@100 / % ");
    assert_eq!(prompt("a", "b", 255, "/"), "a#b@255 / % ");
    assert_eq!(prompt("a", "b", 99, "/"), "a#b@99 / % ");
}

#[test]
fn prompt_names_come_from_one_variable() {
    assert_eq!(
        prompt_names(&pairs(&[("computername", "pc"), ("username", "me")])),
        ("pc".to_string(), "pc".to_string())
    );
    assert_eq!(
        prompt_names(&pairs(&[("username", "me")])),
        ("comp_name_unk".to_string(), "user_name_unk".to_string())
    );
}

#[test]
fn builtin_shell_starts_at_home() {
    let shell = Qiish::at_home("/home/u".to_string(), "/home/u/.qiishenv".to_string());
    assert_eq!(shell.cwd, "/home/u");
    assert_eq!(shell.homedir, "/home/u");
    assert_eq!(shell.qiishenv, "/home/u/.qiishenv");
}

#[test]
fn directories_first_keeps_the_order_within() {
    let given = vec![
        entry("f1", false),
        entry("d1", true),
        entry("f0", false),
        entry("d0", true),
    ];
    assert_eq!(
        sort_files_dirs(given, true),
        vec![
            entry("d1", true),
            entry("d0", true),
            entry("f1", false),
            entry("f0", false)
        ]
    );
    assert_eq!(sort_files_dirs(vec![], true), vec![]);
}

#[test]
fn without_directories_first_names_decide() {
    let given = vec![
        entry("f1", false),
        entry("d1", true),
        entry("f0", false),
        entry("d0", true),
    ];
    assert_eq!(
        sort_files_dirs(given, false),
        vec![
            entry("d0", true),
            entry("d1", true),
            entry("f0", false),
            entry("f1", false)
        ]
    );
}

#[test]
fn names_sort_by_character() {
    let names = ["b", "ab", "a", "", "B", "é", "a0", "aa"];
    let given: Vec<Entry> = names.iter().map(|n| entry(n, false)).collect();
    let sorted: Vec<String> = sort_by_name(given).into_iter().map(|e| e.name).collect();
    let mut expected: Vec<String> = names.iter().map(|n| n.to_string()).collect();
    expected.sort();
    assert_eq!(sorted, expected);
    assert_eq!(sorted, strings(&["", "B", "a", "a0", "aa", "ab", "b", "é"]));
}

#[test]
fn ls_options_from_flags() {
    let all = LsOptions::from_flags(&strings(&[
        "a",
        "color",
        "F",
        "group-directories-first",
        "m",
        "p",
    ]));
    assert!(all.all && all.color && all.classify && all.dirs_first);
    assert!(all.comma_separated && all.dir_indicator);
    let long = LsOptions::from_flags(&strings(&["all", "classify", "indicator-style"]));
    assert!(long.all && long.classify && long.dir_indicator);
    assert!(!long.color && !long.dirs_first && !long.comma_separated);
    let none = LsOptions::from_flags(&strings(&["x"]));
    assert!(!none.all && !none.color && !none.classify);
    assert!(!none.dirs_first && !none.comma_separated && !none.dir_indicator);
}

#[test]
fn ls_listing_text() {
    let entries = vec![entry("d", true), entry("f", false)];
    let plain = LsOptions::from_flags(&vec![]);
    assert_eq!(plain.listing(&entries), "df");
    let all = LsOptions::from_flags(&strings(&["a"]));
    assert_eq!(all.listing(&entries), "...df");
    let fancy = LsOptions::from_flags(&strings(&["a", "color", "p"]));
    assert_eq!(
        fancy.listing(&entries),
        "\x1b[34m./../\x1b[0m\x1b[34md/\x1b[0mf"
    );
    let slashes = LsOptions::from_flags(&strings(&["p"]));
    assert_eq!(slashes.listing(&entries), "d/f");
    let colour = LsOptions::from_flags(&strings(&["color"]));
    assert_eq!(colour.listing(&entries), "\x1b[34md\x1b[0mf");
    assert_eq!(colour.listing(&vec![]), "");
}

#[test]
fn ls_targets() {
    assert_eq!(ls_target(&vec![]), LsTarget::Directory(".".to_string()));
    assert_eq!(
        ls_target(&strings(&["x"])),
        LsTarget::Directory("x".to_string())
    );
    assert_eq!(ls_target(&strings(&["x", "y"])), LsTarget::Nothing);
}

#[test]
fn whitespace_is_what_the_standard_library_says() {
    let mut code: u32 = 0;
    while code <= 0x10FFFF {
        if let Some(c) = char::from_u32(code) {
            assert_eq!(is_whitespace_char(c), c.is_whitespace(), "at {:x}", code);
        }
        code += 1;
    }
}

#[test]
fn trimming_is_what_the_standard_library_does() {
    let table = [
        "",
        " ",
        "a",
        " a ",
        "\u{3000}exit\u{85}\n",
        "\t a b \r\n",
        "\u{a0}\u{1680}x\u{2000}y\u{200a}\u{2028}\u{2029}\u{202f}\u{205f}",
        "\u{200b}a\u{200b}",
        "  \u{b}\u{c}  ",
    ];
    for text in table {
        let chars = chars_of(text);
        let (start, end) = trim_bounds(&chars);
        let mine: String = chars[start..end].iter().collect();
        assert_eq!(mine, text.trim());
    }
}

#[test]
fn words_are_what_the_standard_library_finds() {
    let table = [
        "x",
        "x ",
        "x a b",
        "x  a\t\tb\n",
        "x \u{3000}a\u{85}b\u{a0}",
        "x \u{200b}a",
        "x     ",
    ];
    for line in table {
        let (name, args) = split_command(line);
        let (before, after) = line.split_once(' ').unwrap_or((line, ""));
        assert_eq!(name, before.trim());
        let expected: Vec<String> = after.split_whitespace().map(|w| w.to_string()).collect();
        assert_eq!(args, expected);
    }
}

#[test]
fn characters_of_a_text() {
    assert_eq!(chars_of("aé\u{1F600}"), vec!['a', 'é', '\u{1F600}']);
    assert_eq!(chars_of(""), Vec::<char>::new());
}
