use nova_shell::completion::{
    chars_of, complete_command, complete_path, decorate, directory_to_list, fragments,
    has_prefix, holds_char, request, split_path, strip_quotes, CompletionRequest, DirEntry,
    Namespace,
};

fn names(list: &[&str]) -> Vec<String> {
    list.iter().map(|name| name.to_string()).collect()
}

fn entry(name: &str, is_dir: bool) -> DirEntry {
    DirEntry { name: name.to_string(), is_dir }
}

fn tokens(list: &[&[u8]]) -> Option<Vec<Vec<u8>>> {
    Some(list.iter().map(|token| token.to_vec()).collect())
}

#[test]
fn spaces_split_tokens() {
    assert_eq!(fragments(b"ls -l /tmp"), tokens(&[b"ls", b"-l", b"/tmp"]));
    assert_eq!(fragments(b"  ls   fo"), tokens(&[b"ls", b"fo"]));
    assert_eq!(fragments(b"ec"), tokens(&[b"ec"]));
}

#[test]
fn spaces_inside_quotes_do_not_split() {
    assert_eq!(fragments(b"echo \"a b\" c"), tokens(&[b"echo", b"\"a b\"", b"c"]));
    assert_eq!(fragments(b"cat 'my file"), tokens(&[b"cat", b"'my file"]));
    assert_eq!(fragments(b"cat 'it\"s' x"), tokens(&[b"cat", b"'it\"s'", b"x"]));
    assert_eq!(fragments(b"a\"b c\"d e"), tokens(&[b"a\"b c\"d", b"e"]));
}

#[test]
fn the_last_token_of_a_quoted_line_is_the_fragment() {
    let asked = request(b"echo \"a b\" c").unwrap();
    assert_eq!(asked.fragment, "c");
    assert_eq!(asked.token_len, 1);
    assert_eq!(asked.namespace, Namespace::Path);
    let all = fragments(b"echo \"a b\" c").unwrap();
    assert_eq!(strip_quotes(&all[0]), b"echo".to_vec());
    assert_eq!(strip_quotes(&all[1]), b"a b".to_vec());
}

#[test]
fn nothing_pending_means_nothing_to_complete() {
    assert_eq!(fragments(b""), None);
    assert_eq!(fragments(b"   "), None);
    assert_eq!(fragments(b"ls "), None);
    assert_eq!(fragments(b"echo \"a b\" "), None);
    assert_eq!(request(b""), None);
    assert_eq!(request(b"ls "), None);
    assert_eq!(fragments(b"echo \"a b "), tokens(&[b"echo", b"\"a b "]));
}

#[test]
fn quotes_are_stripped_from_the_fragment() {
    assert_eq!(strip_quotes(b"'my file'"), b"my file".to_vec());
    assert_eq!(strip_quotes(b"a\"b\"'c'"), b"abc".to_vec());
    assert_eq!(strip_quotes(b"plain"), b"plain".to_vec());
    assert_eq!(strip_quotes(b"\"'"), Vec::<u8>::new());
    let asked = request(b"cat 'my fi").unwrap();
    assert_eq!(
        asked,
        CompletionRequest {
            namespace: Namespace::Path,
            token_len: 6,
            fragment: "my fi".to_string(),
        }
    );
}

#[test]
fn the_first_token_names_a_command() {
    let asked = request(b"ec").unwrap();
    assert_eq!(asked.namespace, Namespace::Command);
    assert_eq!(asked.fragment, "ec");
    assert_eq!(asked.token_len, 2);
    assert_eq!(request(b"  ec").unwrap().namespace, Namespace::Command);
    assert_eq!(request(b"ec h").unwrap().namespace, Namespace::Path);
}

#[test]
fn a_fragment_that_is_not_text_asks_nothing() {
    assert_eq!(request(b"ls \xff\xfe"), None);
    assert_eq!(request(b"ls caf\xc3"), None);
    let asked = request(b"ls caf\xc3\xa9").unwrap();
    assert_eq!(asked.fragment, "caf\u{e9}");
    assert_eq!(asked.token_len, 5);
}

#[test]
fn commands_are_matched_by_prefix() {
    let table = names(&["cd", "echo", "exit"]);
    assert_eq!(complete_command("ec", &table), ("", names(&["echo"])));
    assert_eq!(complete_command("e", &table), ("", names(&["echo", "exit"])));
    assert_eq!(complete_command("", &table), ("", names(&["cd", "echo", "exit"])));
    assert_eq!(complete_command("x", &table), ("", names(&[])));
    assert_eq!(complete_command("echo", &table), ("", names(&["echo"])));
    assert_eq!(complete_command("echoo", &table), ("", names(&[])));
    assert_eq!(complete_command("EC", &table), ("", names(&[])));
    assert_eq!(complete_command("ec", &names(&[])), ("", names(&[])));
}

#[test]
fn a_path_splits_at_its_last_slash() {
    assert_eq!(split_path("src/shell/mo"), ("src/shell/", "mo"));
    assert_eq!(split_path("fo"), ("", "fo"));
    assert_eq!(split_path("/"), ("/", ""));
    assert_eq!(split_path("/etc"), ("/", "etc"));
    assert_eq!(split_path("dir/"), ("dir/", ""));
    assert_eq!(split_path(""), ("", ""));
    assert_eq!(split_path("caf\u{e9}/na\u{ef}"), ("caf\u{e9}/", "na\u{ef}"));
}

#[test]
fn a_path_without_a_directory_is_completed_in_the_current_one() {
    assert_eq!(directory_to_list("fo"), ".");
    assert_eq!(directory_to_list(""), ".");
    assert_eq!(directory_to_list("src/fo"), "src/");
    assert_eq!(directory_to_list("/fo"), "/");
    assert_eq!(directory_to_list("a/b/"), "a/b/");
}

#[test]
fn entries_are_decorated() {
    assert_eq!(decorate(&entry("foo.txt", false)), "foo.txt");
    assert_eq!(decorate(&entry("foobar", true)), "foobar/");
    assert_eq!(decorate(&entry("my file", false)), "'my file'");
    assert_eq!(decorate(&entry("my dir", true)), "'my dir'/");
}

#[test]
fn two_entries_that_fit_are_both_candidates() {
    let listing = vec![entry("foo.txt", false), entry("bar", false), entry("foobar", true)];
    assert_eq!(complete_path("fo", &listing), ("", names(&["foo.txt", "foobar/"])));
}

#[test]
fn a_path_is_completed_inside_its_directory() {
    let listing = vec![entry("mod.rs", false), entry("my notes", false), entry("target", true)];
    assert_eq!(
        complete_path("src/m", &listing),
        ("src/", names(&["mod.rs", "'my notes'"]))
    );
    assert_eq!(
        complete_path("src/", &listing),
        ("src/", names(&["mod.rs", "'my notes'", "target/"]))
    );
    assert_eq!(complete_path("src/x", &listing), ("src/", names(&[])));
    assert_eq!(complete_path("src/M", &listing), ("src/", names(&[])));
}

#[test]
fn the_same_listing_gives_the_same_candidates() {
    let listing = vec![entry("b", false), entry("a2", true), entry("a1", false)];
    let first = complete_path("dir/a", &listing);
    let second = complete_path("dir/a", &listing);
    assert_eq!(first, second);
    assert_eq!(first, ("dir/", names(&["a2/", "a1"])));
}

#[test]
fn characters_and_prefixes() {
    assert_eq!(chars_of("a\u{e9}b"), vec!['a', '\u{e9}', 'b']);
    assert_eq!(chars_of(""), Vec::<char>::new());
    assert!(has_prefix(&['a', 'b'], &['a']));
    assert!(has_prefix(&['a', 'b'], &[]));
    assert!(has_prefix(&['a', 'b'], &['a', 'b']));
    assert!(!has_prefix(&['a', 'b'], &['b']));
    assert!(!has_prefix(&['a'], &['a', 'b']));
    assert!(holds_char(&['a', ' ', 'b'], ' '));
    assert!(!holds_char(&['a', 'b'], ' '));
}
