use buzz::account::Account;

fn account(cmd: &str) -> Account {
    Account {
        name: "work".to_string(),
        address: "imap.example.org".to_string(),
        port: 993,
        username: "me".to_string(),
        password_command: cmd.to_string(),
        notification_command: None,
    }
}

#[test]
fn password_command_pieces() {
    assert_eq!(account("pass show mail").password_argv(), vec!["pass", "show", "mail"]);
    assert_eq!(account("cat").password_argv(), vec!["cat"]);
    assert_eq!(account("").password_argv(), vec![""]);
    assert_eq!(account("a  b ").password_argv(), vec!["a", "", "b", ""]);
}
