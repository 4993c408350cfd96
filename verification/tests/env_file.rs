use mci_client::{quote, reset_saved_auth, unquote, DotEnvStore};

fn chars(s: &str) -> Vec<char> {
    s.chars().collect()
}

fn text(v: &[char]) -> String {
    v.iter().collect()
}

#[test]
fn saves_existing_lines_and_appends_new_keys() {
    let body = "# comment\nMCI_USERNAME=\"912\"\n\nMCI_ACCESS_TOKEN=\"old\"\n";
    let mut env = DotEnvStore::new("test.env", Some(body));
    env.set("MCI_ACCESS_TOKEN", "new token");
    env.set("MCI_REFRESH_TOKEN", "refresh");
    let saved = env.render();
    assert!(saved.contains("# comment\n"));
    assert!(saved.contains("MCI_USERNAME=\"912\""));
    assert!(saved.contains("MCI_ACCESS_TOKEN=\"new token\""));
    assert!(saved.contains("MCI_REFRESH_TOKEN=\"refresh\""));
}

#[test]
fn renders_lines_in_place_and_new_keys_in_key_order() {
    let body = "# comment\nB=1\n\n  A = 'x y' \nnot a pair\n";
    let mut env = DotEnvStore::new("x.env", Some(body));
    env.set("Z", "z");
    env.set("C", "c");
    assert_eq!(
        env.render(),
        "# comment\nB=\"1\"\n\nA=\"x y\"\nnot a pair\nC=\"c\"\nZ=\"z\"\n"
    );
}

#[test]
fn reads_values_quoted_escaped_and_plain() {
    let body = "A=\"a \\\"q\\\" b\"\nB='single'\nC=  plain  \nD=\nE=\"unterminated\n#F=1\nG=1=2\n9H=1\n";
    let env = DotEnvStore::new("x.env", Some(body));
    assert_eq!(env.get("A"), Some("a \"q\" b"));
    assert_eq!(env.get("B"), Some("single"));
    assert_eq!(env.get("C"), Some("plain"));
    assert_eq!(env.get("D"), Some(""));
    assert_eq!(env.get("E"), Some("\"unterminated"));
    assert_eq!(env.get("F"), None);
    assert_eq!(env.get("G"), Some("1=2"));
    assert_eq!(env.get("9H"), None);
}

#[test]
fn later_line_wins() {
    let env = DotEnvStore::new("x.env", Some("K=1\nK=2\n"));
    assert_eq!(env.get("K"), Some("2"));
}

#[test]
fn missing_file_gives_an_empty_store() {
    let env = DotEnvStore::new("none.env", None);
    assert_eq!(env.get("MCI_USERNAME"), None);
    assert_eq!(env.render(), "\n");
    assert_eq!(env.path(), "none.env");
}

#[test]
fn get_after_set() {
    let mut env = DotEnvStore::new("x.env", Some("A=1\n"));
    env.set("A", "2");
    env.set("B", "3");
    assert_eq!(env.get("A"), Some("2"));
    assert_eq!(env.get("B"), Some("3"));
}

#[test]
fn reloading_a_rendered_store_gives_the_same_values() {
    let body = "# c\r\nUSER = \"a\\\\b\"\r\nX='1'\nlone\r\r\n";
    let mut env = DotEnvStore::new("x.env", Some(body));
    env.set("NEW", "with \"quotes\" and \\ slash");
    env.set("X", "");
    let again = DotEnvStore::new("x.env", Some(&env.render()));
    for key in ["USER", "X", "NEW", "lone", "c"] {
        assert_eq!(again.get(key), env.get(key), "{key}");
    }
    assert_eq!(again.get("NEW"), Some("with \"quotes\" and \\ slash"));
}

#[test]
fn quote_escapes_and_unquote_undoes_it() {
    let v = chars("a\"b\\c");
    let q = quote(&v);
    assert_eq!(text(&q), "\"a\\\"b\\\\c\"");
    assert_eq!(unquote(&q), v);
    assert_eq!(text(&unquote(&chars("'x\\'"))), "x\\");
    assert_eq!(text(&unquote(&chars("\"a'"))), "\"a'");
    assert_eq!(text(&unquote(&chars("\""))), "\"");
}

#[test]
fn resetting_twice_writes_the_same_file() {
    let body = "# comment\nMCI_USERNAME=\"912\"\nMCI_ACCESS_TOKEN=\"abc\"\nMCI_SESSION_STATE=x\r\n\nOTHER='keep me'\n";
    let first = reset_saved_auth("x.env", Some(body)).render();
    let second = reset_saved_auth("x.env", Some(&first)).render();
    assert_eq!(second, first);
    assert_eq!(
        first,
        "# comment\nMCI_USERNAME=\"912\"\nMCI_ACCESS_TOKEN=\"\"\nMCI_SESSION_STATE=\"\"\n\nOTHER=\"keep me\"\n\
MCI_ACCESS_TOKEN_EXPIRES_AT=\"\"\nMCI_REFRESH_TOKEN=\"\"\nMCI_REFRESH_TOKEN_EXPIRES_AT=\"\"\n"
    );
    let env = DotEnvStore::new("x.env", Some(&second));
    assert_eq!(env.get("MCI_ACCESS_TOKEN"), Some(""));
    assert_eq!(env.get("MCI_USERNAME"), Some("912"));
    assert_eq!(env.get("OTHER"), Some("keep me"));
}

#[test]
fn a_lone_carriage_return_on_a_plain_line_is_not_kept_by_a_second_reset() {
    let body = "# comment\r";
    let first = reset_saved_auth("x.env", Some(body)).render();
    let second = reset_saved_auth("x.env", Some(&first)).render();
    assert!(first.starts_with("# comment\r\n"));
    assert!(second.starts_with("# comment\n"));
}
