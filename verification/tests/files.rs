use session_core::files::{
    build_list_cmd, join_path, parse_find_output, parse_listing, sort_by_kind_then_name, Entry,
};

#[test]
fn list_cmd_cds_then_pwds_then_finds() {
    assert_eq!(
        build_list_cmd("/home/ubuntu/my proj"),
        "cd '/home/ubuntu/my proj' && pwd && \
         find . -mindepth 1 -maxdepth 1 -printf '%Y\\t%s\\t%f\\n'"
    );
}

#[test]
fn listing_takes_first_line_as_resolved_dir() {
    let out = "/home/ubuntu\n\
               d\t4096\tsrc\n\
               f\t120\tREADME.md\n";
    let got = parse_listing(out);
    assert_eq!(got.dir, "/home/ubuntu");
    assert_eq!(
        got.entries,
        vec![
            Entry { name: "src".into(), is_dir: true, size: 4096 },
            Entry { name: "README.md".into(), is_dir: false, size: 120 },
        ]
    );
}

#[test]
fn listing_with_no_entries_is_just_a_dir() {
    let got = parse_listing("/tmp\n");
    assert_eq!(got.dir, "/tmp");
    assert!(got.entries.is_empty());
}

#[test]
fn pwd_line_never_leaks_into_entries() {
    let got = parse_listing("/home/ubuntu\nf\t1\tonly-file\n");
    assert_eq!(got.entries.len(), 1);
    assert_eq!(got.entries[0].name, "only-file");
}

#[test]
fn sorts_dirs_first_then_case_insensitive_name() {
    let out = "f\t1\tzeta\n\
               d\t1\tBeta\n\
               d\t1\talpha\n\
               f\t1\tAlpha\n";
    let names: Vec<_> = parse_find_output(out).into_iter().map(|e| e.name).collect();
    assert_eq!(names, vec!["alpha", "Beta", "Alpha", "zeta"]);
}

#[test]
fn symlink_to_dir_counts_as_dir() {
    assert!(parse_find_output("d\t1\tlink-to-dir\n")[0].is_dir);
    assert!(!parse_find_output("N\t1\tbroken\n")[0].is_dir);
}

#[test]
fn drops_unparseable_lines_without_failing() {
    let out = "garbage\n\
               f\tnotanumber\tbad\n\
               \n\
               f\t7\tok\n";
    let got = parse_find_output(out);
    assert_eq!(got.len(), 1);
    assert_eq!(got[0].name, "ok");
}

#[test]
fn keeps_names_with_tabs_in_them_intact() {
    let got = parse_find_output("f\t3\tweird\tname\n");
    assert_eq!(got[0].name, "weird\tname");
}

#[test]
fn join_path_avoids_double_slash() {
    assert_eq!(join_path("/home", "ubuntu"), "/home/ubuntu");
    assert_eq!(join_path("/", "home"), "/home");
}

// ---- added ----

#[test]
fn equal_keys_keep_input_order_and_unicode_is_lowered() {
    let out = "f\t1\tB\nf\t2\tb\nd\t3\tÉcole\nd\t4\técole\nf\t5\ta\n";
    let got: Vec<(String, u64)> =
        parse_find_output(out).into_iter().map(|e| (e.name, e.size)).collect();
    assert_eq!(
        got,
        vec![
            ("École".to_string(), 3),
            ("école".to_string(), 4),
            ("a".to_string(), 5),
            ("B".to_string(), 1),
            ("b".to_string(), 2),
        ]
    );
}

#[test]
fn rejects_empty_names_and_oversized_sizes_and_keeps_crlf_lines() {
    assert!(parse_find_output("f\t1\t\n").is_empty());
    assert!(parse_find_output("f\t18446744073709551616\tx\n").is_empty());
    let got = parse_find_output("f\t18446744073709551615\tbig\r\nd\t+2\tplus\n");
    assert_eq!(got.len(), 2);
    assert_eq!(got[0].name, "plus");
    assert_eq!(got[0].size, 2);
    assert_eq!(got[1].size, u64::MAX);
}

#[test]
fn listing_without_newline_is_trimmed_dir_only() {
    let got = parse_listing("  /srv  ");
    assert_eq!(got.dir, "/srv");
    assert!(got.entries.is_empty());
    assert_eq!(join_path("", "x"), "/x");
}

fn entry(name: &str, is_dir: bool, size: u64) -> Entry {
    Entry { name: name.to_string(), is_dir, size }
}

#[test]
fn sorting_goes_by_kind_then_the_given_sort_names() {
    let items = vec![
        (entry("zeta", false, 1), "zeta".to_string()),
        (entry("B", true, 2), "b".to_string()),
        (entry("a", true, 3), "a".to_string()),
        (entry("Y", false, 4), "c".to_string()),
    ];
    let got = sort_by_kind_then_name(items);
    let names: Vec<&str> = got.iter().map(|e| e.name.as_str()).collect();
    assert_eq!(names, vec!["a", "B", "Y", "zeta"]);
}

#[test]
fn sorting_keeps_input_order_for_equal_keys() {
    let items = vec![
        (entry("second", false, 1), "same".to_string()),
        (entry("dir", true, 9), "zzz".to_string()),
        (entry("first", false, 2), "same".to_string()),
    ];
    let got = sort_by_kind_then_name(items);
    assert_eq!(got, vec![entry("dir", true, 9), entry("second", false, 1), entry("first", false, 2)]);
}

#[test]
fn home_directory_is_left_to_the_remote_shell() {
    assert_eq!(
        build_list_cmd("~"),
        "cd ~ && pwd && find . -mindepth 1 -maxdepth 1 -printf '%Y\\t%s\\t%f\\n'"
    );
    assert_eq!(
        build_list_cmd("~/my proj"),
        "cd ~/'my proj' && pwd && find . -mindepth 1 -maxdepth 1 -printf '%Y\\t%s\\t%f\\n'"
    );
    assert_eq!(
        build_list_cmd("~user"),
        "cd '~user' && pwd && find . -mindepth 1 -maxdepth 1 -printf '%Y\\t%s\\t%f\\n'"
    );
}

#[test]
fn a_carriage_return_at_the_very_end_stays_in_the_name() {
    let got = parse_find_output("f\t1\ta\r");
    assert_eq!(got, vec![entry("a\r", false, 1)]);
    let got = parse_find_output("f\t1\ta\r\nf\t2\tb\n");
    assert_eq!(got, vec![entry("a", false, 1), entry("b", false, 2)]);
}
