use chat_lib::command::Outgoing;
use chat_lib::message::MessageType;
use chat_lib::ChatError;
use std::path::Path;

fn classify(line: &str) -> Result<Outgoing, ChatError> {
    MessageType::determine_outgoing_message(&line.to_string())
}

#[test]
fn file_command_names_path_and_file_name() {
    let outgoing = classify(".file ./notes.txt").unwrap();
    assert_eq!(
        outgoing,
        Outgoing::File { path: "./notes.txt".to_string(), name: "notes.txt".to_string() }
    );
    assert_eq!(
        outgoing.into_message(vec![1, 2, 3]),
        Some(MessageType::File { name: "notes.txt".to_string(), content: vec![1, 2, 3] })
    );
}

#[test]
fn quit_sends_nothing() {
    assert_eq!(classify(".quit"), Ok(Outgoing::Quit));
    assert_eq!(Outgoing::Quit.into_message(vec![1]), None);
}

#[test]
fn plain_line_is_text() {
    assert_eq!(classify("hello"), Ok(Outgoing::Text("hello".to_string())));
    assert_eq!(
        Outgoing::Text("hello".to_string()).into_message(vec![9]),
        Some(MessageType::Text("hello".to_string()))
    );
}

#[test]
fn file_command_without_path_is_invalid() {
    assert_eq!(classify(".file"), Err(ChatError::InvalidPath));
    assert_eq!(classify(".file "), Err(ChatError::InvalidPath));
}

#[test]
fn image_command_without_path_is_invalid() {
    assert_eq!(classify(".image"), Err(ChatError::InvalidPath));
    assert_eq!(classify(".image "), Err(ChatError::InvalidPath));
}

#[test]
fn image_command_names_path() {
    let outgoing = classify(".image pics/cat.png").unwrap();
    assert_eq!(outgoing, Outgoing::Image { path: "pics/cat.png".to_string() });
    assert_eq!(outgoing.into_message(vec![4, 5]), Some(MessageType::Image(vec![4, 5])));
}

#[test]
fn path_without_file_name_is_invalid() {
    for line in [".file ..", ".file /", ".file .", ".file a/..", ".image ..", ".image /"] {
        assert_eq!(classify(line), Err(ChatError::InvalidPath));
    }
}

#[test]
fn path_is_all_behind_the_first_space() {
    assert_eq!(
        classify(".file my notes.txt"),
        Ok(Outgoing::File { path: "my notes.txt".to_string(), name: "my notes.txt".to_string() })
    );
    assert_eq!(
        classify(".file  a"),
        Ok(Outgoing::File { path: " a".to_string(), name: " a".to_string() })
    );
}

#[test]
fn other_lines_are_text_as_they_stand() {
    for line in ["", " ", ".quit now", ".quitx", ".filename x", ".files", ".images a", "a .file b", ".", "héllo ✓"] {
        assert_eq!(classify(line), Ok(Outgoing::Text(line.to_string())));
    }
}

#[test]
fn extract_path_takes_what_follows_the_first_space() {
    let path = |line: &str| MessageType::extract_path(&line.to_string());
    assert_eq!(path(".file a b"), Ok("a b".to_string()));
    assert_eq!(path(".file ./notes.txt"), Ok("./notes.txt".to_string()));
    assert_eq!(path("x "), Ok(String::new()));
    assert_eq!(path(" x"), Ok("x".to_string()));
    assert_eq!(path("é ü"), Ok("ü".to_string()));
    assert_eq!(path(".file"), Err(ChatError::InvalidPath));
    assert_eq!(path(""), Err(ChatError::InvalidPath));
}

#[test]
fn extract_file_name_of_chosen_paths() {
    let name = |path: &str| MessageType::extract_file_name(&path.to_string()).map(str::to_string);
    assert_eq!(name("./notes.txt"), Some("notes.txt".to_string()));
    assert_eq!(name("notes.txt"), Some("notes.txt".to_string()));
    assert_eq!(name("/a/b/c"), Some("c".to_string()));
    assert_eq!(name("a/b/"), Some("b".to_string()));
    assert_eq!(name("a/b/."), Some("b".to_string()));
    assert_eq!(name("a/b//./"), Some("b".to_string()));
    assert_eq!(name("..."), Some("...".to_string()));
    assert_eq!(name(".hidden"), Some(".hidden".to_string()));
    assert_eq!(name("a/.."), None);
    assert_eq!(name(".."), None);
    assert_eq!(name("."), None);
    assert_eq!(name("/"), None);
    assert_eq!(name(""), None);
    assert_eq!(name("../../etc/passwd"), Some("passwd".to_string()));
}

#[test]
fn extract_file_name_agrees_with_the_paths_of_unix() {
    if std::path::MAIN_SEPARATOR != '/' {
        return;
    }
    let parts = ["", "a", ".", "..", "...", "/", "//", "b.txt", " ", "é"];
    for first in parts {
        for second in parts {
            for third in parts {
                for joint in ["", "/"] {
                    let path = format!("{first}{joint}{second}/{third}");
                    let expected = Path::new(&path).file_name().and_then(|name| name.to_str());
                    assert_eq!(MessageType::extract_file_name(&path), expected);
                    let direct = format!("{first}{second}{joint}{third}");
                    let expected = Path::new(&direct).file_name().and_then(|name| name.to_str());
                    assert_eq!(MessageType::extract_file_name(&direct), expected);
                }
            }
        }
    }
}

#[test]
fn file_name_is_its_own_file_name() {
    for path in ["a/b/c.txt", "x", "./y/", "dir/.z"] {
        let name = MessageType::extract_file_name(&path.to_string()).unwrap().to_string();
        assert!(!name.contains('/'));
        assert_eq!(MessageType::extract_file_name(&name), Some(name.as_str()));
    }
}
