use irc_message::{Message, ParseError, Prefix};

fn owned(v: &[&str]) -> Vec<String> {
    v.iter().map(|s| s.to_string()).collect()
}

fn tag(k: &str, v: Option<&str>) -> (String, Option<String>) {
    (k.to_string(), v.map(|s| s.to_string()))
}

#[test]
fn empty_line_is_empty_input() {
    assert_eq!(Message::parse("").unwrap_err(), ParseError::EmptyInput);
}

#[test]
fn bare_command() {
    let m = Message::parse("PRIVMSG").unwrap();
    assert_eq!(m.tags, None);
    assert_eq!(m.prefix, None);
    assert_eq!(m.command, Some("PRIVMSG".to_string()));
    assert_eq!(m.params, None);
}

#[test]
fn ping_with_trailing() {
    let m = Message::parse("PING :tmi.twitch.tv").unwrap();
    assert_eq!(m.tags, None);
    assert_eq!(m.prefix, None);
    assert_eq!(m.command, Some("PING".to_string()));
    assert_eq!(m.params, Some(owned(&["tmi.twitch.tv"])));
}

#[test]
fn nick_prefix_with_middle_and_trailing() {
    let m = Message::parse(":nick!user@host PRIVMSG #chan :hello").unwrap();
    assert_eq!(m.tags, None);
    assert_eq!(
        m.prefix,
        Some(Prefix::Nick("nick".to_string(), "user".to_string(), "host".to_string()))
    );
    assert_eq!(m.command, Some("PRIVMSG".to_string()));
    assert_eq!(m.params, Some(owned(&["#chan", "hello"])));
}

#[test]
fn tags_servername_and_command() {
    let m = Message::parse("@flag=;id=abc :server.example COMMAND").unwrap();
    assert_eq!(m.tags, Some(vec![tag("flag", None), tag("id", Some("abc"))]));
    assert_eq!(m.prefix, Some(Prefix::Servername("server.example".to_string())));
    assert_eq!(m.command, Some("COMMAND".to_string()));
    assert_eq!(m.params, None);
}

#[test]
fn tag_block_without_command() {
    assert_eq!(Message::parse("@id=abc").unwrap_err(), ParseError::MissingCommand);
}

#[test]
fn prefix_block_without_command() {
    assert_eq!(
        Message::parse(":server.example").unwrap_err(),
        ParseError::MissingCommand
    );
    assert_eq!(
        Message::parse("@id=abc :server.example").unwrap_err(),
        ParseError::MissingCommand
    );
}

#[test]
fn repeated_parses_agree() {
    let line = "@a=1;b= :n!u@h PRIVMSG #c x :some text";
    let first = Message::parse(line).unwrap();
    let second = Message::parse(line).unwrap();
    assert_eq!(first.tags, second.tags);
    assert_eq!(first.prefix, second.prefix);
    assert_eq!(first.command, second.command);
    assert_eq!(first.params, second.params);
    assert_eq!(Message::parse("@x").unwrap_err(), Message::parse("@x").unwrap_err());
}

#[test]
fn empty_and_missing_tag_values_are_absent() {
    let m = Message::parse("@a=;b;c=x=y;d=v CMD").unwrap();
    assert_eq!(
        m.tags,
        Some(vec![
            tag("a", None),
            tag("b", None),
            tag("c", Some("x=y")),
            tag("d", Some("v")),
        ])
    );
}

#[test]
fn repeated_tag_keys_are_all_kept_in_order() {
    let m = Message::parse("@k=1;k=2 CMD").unwrap();
    assert_eq!(m.tags, Some(vec![tag("k", Some("1")), tag("k", Some("2"))]));
}

#[test]
fn prefix_of_two_segments_is_dropped() {
    let m = Message::parse(":nick@host CMD x").unwrap();
    assert_eq!(m.prefix, None);
    assert_eq!(m.command, Some("CMD".to_string()));
    assert_eq!(m.params, Some(owned(&["x"])));
}

#[test]
fn prefix_of_four_segments_is_dropped() {
    let m = Message::parse(":a!b@c!d CMD").unwrap();
    assert_eq!(m.prefix, None);
    assert_eq!(m.command, Some("CMD".to_string()));
}

#[test]
fn any_three_segments_make_a_nick() {
    let m = Message::parse(":nick!user!extra CMD").unwrap();
    assert_eq!(
        m.prefix,
        Some(Prefix::Nick("nick".to_string(), "user".to_string(), "extra".to_string()))
    );
}

#[test]
fn empty_prefix_block_is_an_empty_servername() {
    let m = Message::parse(": CMD").unwrap();
    assert_eq!(m.prefix, Some(Prefix::Servername(String::new())));
    assert_eq!(m.command, Some("CMD".to_string()));
}

#[test]
fn middle_params_only() {
    let m = Message::parse("MODE #chan +o  nick").unwrap();
    assert_eq!(m.command, Some("MODE".to_string()));
    assert_eq!(m.params, Some(owned(&["#chan", "+o", "nick"])));
}

#[test]
fn middle_params_split_on_any_ascii_whitespace() {
    let m = Message::parse("CMD a\tb\x0Cc :t").unwrap();
    assert_eq!(m.params, Some(owned(&["a", "b", "c", "t"])));
}

#[test]
fn empty_trailing_param() {
    let m = Message::parse("CMD :").unwrap();
    assert_eq!(m.params, Some(owned(&[""])));
    let m = Message::parse("CMD a :").unwrap();
    assert_eq!(m.params, Some(owned(&["a", ""])));
}

#[test]
fn trailing_param_kept_verbatim() {
    let m = Message::parse("PRIVMSG #c :  two  spaces : colon ").unwrap();
    assert_eq!(m.params, Some(owned(&["#c", "  two  spaces : colon "])));
}

#[test]
fn space_after_command_gives_empty_params() {
    let m = Message::parse("CMD ").unwrap();
    assert_eq!(m.command, Some("CMD".to_string()));
    assert_eq!(m.params, Some(Vec::<String>::new()));
}

#[test]
fn colon_inside_a_word_starts_the_trailing_param() {
    let m = Message::parse("CMD a:b").unwrap();
    assert_eq!(m.params, Some(owned(&["a", "b"])));
    let m = Message::parse("PRIVMSG #c a:b :t").unwrap();
    assert_eq!(m.params, Some(owned(&["#c", "a", "b :t"])));
}

#[test]
fn non_ascii_character_before_colon_is_kept() {
    let m = Message::parse("CMD é:x").unwrap();
    assert_eq!(m.params, Some(owned(&["é", "x"])));
}

#[test]
fn non_ascii_text() {
    let m = Message::parse("@n=é :ñ!ü@ö PRIVMSG #ça :héllo wörld").unwrap();
    assert_eq!(m.tags, Some(vec![tag("n", Some("é"))]));
    assert_eq!(
        m.prefix,
        Some(Prefix::Nick("ñ".to_string(), "ü".to_string(), "ö".to_string()))
    );
    assert_eq!(m.params, Some(owned(&["#ça", "héllo wörld"])));
}

#[test]
fn default_message_is_empty() {
    let m = Message::default();
    assert_eq!(m.tags, None);
    assert_eq!(m.prefix, None);
    assert_eq!(m.command, None);
    assert_eq!(m.params, None);
}
