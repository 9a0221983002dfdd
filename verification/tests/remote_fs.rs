use ssh4::remote_fs::{
    chmod_command, delete_command, exec_outcome, join, list_command, mkdir_command, parent,
    parse_ls_line, parse_ls_output, perms_to_octal, rename_command, sh_quote, touch_command,
    valid_mode,
};

#[test]
fn quote_plain_and_embedded_quote() {
    assert_eq!(sh_quote("/tmp/a b"), "'/tmp/a b'");
    assert_eq!(sh_quote("it's"), "'it'\\''s'");
    assert_eq!(sh_quote("$(rm -rf /)"), "'$(rm -rf /)'");
}

#[test]
fn parent_paths() {
    assert_eq!(parent("/home/kei/dir"), "/home/kei");
    assert_eq!(parent("/home"), "/");
    assert_eq!(parent("/"), "/");
    assert_eq!(parent("/a/b/"), "/a");
}

#[test]
fn parses_ls_file_line() {
    let e = parse_ls_line("-rw-r--r--  1 kei  users   1234 Jun  9 14:30 notes.txt").unwrap();
    assert_eq!(e.name, "notes.txt");
    assert!(!e.is_dir);
    assert_eq!(e.size, 1234);
    assert_eq!(e.perms, "rw-r--r--");
    assert_eq!(e.modified, "Jun 9 14:30");
}

#[test]
fn parses_dir_link_and_spaces() {
    let d = parse_ls_line("drwxr-xr-x 2 kei users 4096 Jun  9 14:30 my dir").unwrap();
    assert!(d.is_dir);
    assert_eq!(d.name, "my dir");
    let l = parse_ls_line("lrwxrwxrwx 1 kei users 9 Jun  9 14:30 link -> /etc/host").unwrap();
    assert!(l.is_link);
    assert_eq!(l.name, "link");
}

#[test]
fn skips_total_dot_and_garbage() {
    assert!(parse_ls_line("total 48").is_none());
    assert!(parse_ls_line("drwxr-xr-x 2 kei users 4096 Jun  9 14:30 .").is_none());
    assert!(parse_ls_line("drwxr-xr-x 2 kei users 4096 Jun  9 14:30 ..").is_none());
    assert!(parse_ls_line("").is_none());
}

#[test]
fn listing_sorts_dirs_first() {
    let out = "total 8\n\
               -rw-r--r-- 1 k u 10 Jun 9 14:30 zfile\n\
               drwxr-xr-x 2 k u 4096 Jun 9 14:30 adir\n\
               -rw-r--r-- 1 k u 10 Jun 9 14:30 afile\n";
    let names: Vec<String> = parse_ls_output(out).into_iter().map(|e| e.name).collect();
    assert_eq!(names, vec!["adir", "afile", "zfile"]);
}

#[test]
fn perms_octal_roundtrip() {
    assert_eq!(perms_to_octal("rwxr-xr-x"), "755");
    assert_eq!(perms_to_octal("rw-r--r--"), "644");
    assert_eq!(perms_to_octal("rwsr-xr-t"), "755");
    assert!(valid_mode("644"));
    assert!(valid_mode("0755"));
    assert!(!valid_mode("99"));
    assert!(!valid_mode("abc"));
}

#[test]
fn listing_sort_ignores_case_and_keeps_equal_keys_in_order() {
    let out = "-rw-r--r-- 1 k u 1 Jun 9 14:30 B\r\n\
               -rw-r--r-- 1 k u 2 Jun 9 14:30 a\r\n\
               drwxr-xr-x 2 k u 3 Jun 9 14:30 Zdir\n\
               -rw-r--r-- 1 k u 4 Jun 9 14:30 b";
    let got: Vec<(String, u64)> = parse_ls_output(out).into_iter().map(|e| (e.name, e.size)).collect();
    assert_eq!(
        got,
        vec![
            ("Zdir".to_string(), 3),
            ("a".to_string(), 2),
            ("B".to_string(), 1),
            ("b".to_string(), 4)
        ]
    );
}

#[test]
fn ls_line_edge_cases() {
    // A size that is not a number parses as zero.
    let e = parse_ls_line("-rw-r--r-- 1 k u big Jun 9 14:30 f").unwrap();
    assert_eq!(e.size, 0);
    // A mode shorter than ten bytes is not a row.
    assert!(parse_ls_line("-rw-r--r 1 k u 1 Jun 9 14:30 f").is_none());
    // An unknown type character is not a row.
    assert!(parse_ls_line("?rw-r--r-- 1 k u 1 Jun 9 14:30 f").is_none());
    // A link without a target keeps its whole name; trailing spaces go.
    let l = parse_ls_line("lrwxrwxrwx 1 k u 1 Jun 9 14:30 dangling   ").unwrap();
    assert_eq!(l.name, "dangling");
    assert_eq!(l.perms, "rwxrwxrwx");
    // Only links drop their target.
    let f = parse_ls_line("-rw-r--r-- 1 k u 1 Jun 9 14:30 a -> b").unwrap();
    assert_eq!(f.name, "a -> b");
}

#[test]
fn command_builders_quote_paths() {
    assert_eq!(list_command("/tmp"), "LC_ALL=C ls -la -- '/tmp'");
    assert_eq!(mkdir_command("a b"), "mkdir -p -- 'a b'");
    assert_eq!(touch_command("f"), "touch -- 'f'");
    assert_eq!(rename_command("a", "it's"), "mv -- 'a' 'it'\\''s'");
    assert_eq!(delete_command("/x"), "rm -rf -- '/x'");
    assert_eq!(chmod_command("644", "/x"), Ok("chmod 644 -- '/x'".to_string()));
    assert_eq!(
        chmod_command("9", "/x"),
        Err("Invalid mode: 9 (use octal, e.g. 644)".to_string())
    );
    assert_eq!(join("/tmp/", "a"), "/tmp/a");
}

#[test]
fn exec_outcome_reports_exit_status() {
    assert_eq!(exec_outcome("out\n".to_string(), 0), Ok("out\n".to_string()));
    assert_eq!(
        exec_outcome("  no such file \n".to_string(), 2),
        Err("no such file (exit 2)".to_string())
    );
    assert_eq!(
        exec_outcome(" \n".to_string(), 127),
        Err("Remote command failed (exit 127)".to_string())
    );
}

#[test]
fn rows_with_a_split_mode_are_skipped() {
    assert!(parse_ls_line("-rwxr-xr-é 1 k u 1 Jun 9 14:30 f").is_none());
    let out = "total 8\n-rwxr-xr-é 1 k u 1 Jun 9 14:30 f\n-rw-r--r-- 1 k u 5 Jun 9 14:30 g\n";
    let entries = parse_ls_output(out);
    assert_eq!(entries.len(), 1);
    assert_eq!(entries[0].name, "g");
}
