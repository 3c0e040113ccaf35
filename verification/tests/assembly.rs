use outlook_exe::{Invocation, LaunchError, MessageBuilder};

#[test]
fn all_fields_in_their_order() {
    let mb = MessageBuilder::new()
        .with_body("How are you?")
        .with_recipient_bcc("boss@x.com")
        .with_subject("Q&A")
        .with_recipient_cc("team@x.com")
        .with_recipient("a@x.com");
    assert_eq!(
        mb.parameter(),
        "a@x.com&cc=team@x.com&bcc=boss@x.com&subject=Q%26A&body=How are you%3F"
    );
}

#[test]
fn subject_and_body_only() {
    let mb = MessageBuilder::new().with_subject("Hello, World!").with_body("50% off?");
    assert_eq!(mb.parameter(), "subject=Hello, World!&body=50%25 off%3F");
}

#[test]
fn three_recipients_are_joined_in_call_order() {
    let mb = MessageBuilder::new()
        .with_recipient("a@x.com")
        .with_recipient("b@x.com")
        .with_recipient("c@x.com");
    assert_eq!(mb.recipients().join(";"), "a@x.com;b@x.com;c@x.com");
    assert_eq!(mb.parameter(), "a@x.com;b@x.com;c@x.com");
}

#[test]
fn copies_are_joined_in_call_order() {
    let mb = MessageBuilder::new()
        .with_recipient_cc("a@x.com")
        .with_recipient_bcc("x@x.com")
        .with_recipient_cc("b@x.com")
        .with_recipient_bcc("y@x.com");
    assert_eq!(mb.recipients_cc().len(), 2);
    assert_eq!(mb.recipients_cc()[0], "a@x.com");
    assert_eq!(mb.recipients_cc()[1], "b@x.com");
    assert_eq!(mb.recipients_bcc().len(), 2);
    assert_eq!(mb.recipients_bcc()[0], "x@x.com");
    assert_eq!(mb.recipients_bcc()[1], "y@x.com");
    assert_eq!(mb.parameter(), "cc=a@x.com;b@x.com&bcc=x@x.com;y@x.com");
}

#[test]
fn empty_builder_gives_nothing() {
    let mb = MessageBuilder::new();
    assert_eq!(mb.parameter(), "");
    assert!(mb.attachment_flags().is_empty());
    assert_eq!(mb.arguments(), vec!["/c", "ipm.note", "/m", ""]);
}

#[test]
fn default_builder_is_the_empty_builder() {
    assert_eq!(MessageBuilder::default(), MessageBuilder::new());
    assert_eq!(MessageBuilder::default().parameter(), "");
}

#[test]
fn attachment_flags_are_the_switch_and_the_path() {
    let mb = MessageBuilder::new().with_attachment("C:/tmp/file.txt");
    assert_eq!(mb.attachment_flags(), vec!["/a", "C:/tmp/file.txt"]);
    assert_eq!(mb.arguments(), vec!["/c", "ipm.note", "/m", "", "/a", "C:/tmp/file.txt"]);
}

#[test]
fn attachment_path_is_escaped() {
    let mb = MessageBuilder::new().with_attachment("C:/tmp/100% done & dusted?.txt");
    assert_eq!(mb.attachment_flags(), vec!["/a", "C:/tmp/100%25 done %26 dusted%3F.txt"]);
}

#[test]
fn attachment_is_no_part_of_the_parameter() {
    let mb = MessageBuilder::new().with_subject("s").with_attachment("f.txt");
    assert_eq!(mb.parameter(), "subject=s");
}

#[test]
fn first_named_field_leads_without_ampersand() {
    assert_eq!(MessageBuilder::new().with_recipient_cc("c@x.com").parameter(), "cc=c@x.com");
    assert_eq!(MessageBuilder::new().with_recipient_bcc("b@x.com").parameter(), "bcc=b@x.com");
    assert_eq!(MessageBuilder::new().with_subject("s").parameter(), "subject=s");
    assert_eq!(MessageBuilder::new().with_body("b").parameter(), "body=b");
    assert_eq!(
        MessageBuilder::new().with_recipient_bcc("b@x.com").with_body("text").parameter(),
        "bcc=b@x.com&body=text"
    );
}

#[test]
fn recipients_lead_without_a_name() {
    let mb = MessageBuilder::new().with_recipient("a@x.com").with_body("text");
    assert_eq!(mb.parameter(), "a@x.com&body=text");
}

#[test]
fn empty_recipient_text_is_no_segment() {
    let mb = MessageBuilder::new().with_recipient("").with_subject("s");
    assert_eq!(mb.recipients().len(), 1);
    assert_eq!(mb.parameter(), "subject=s");
}

#[test]
fn two_empty_recipients_still_hold_a_separator() {
    let mb = MessageBuilder::new().with_recipient("").with_recipient("").with_subject("s");
    assert_eq!(mb.parameter(), ";&subject=s");
}

#[test]
fn an_empty_copy_address_still_names_its_field() {
    let mb = MessageBuilder::new().with_recipient_cc("").with_body("b");
    assert_eq!(mb.parameter(), "cc=&body=b");
}

#[test]
fn empty_subject_and_body_are_left_out() {
    let mb = MessageBuilder::new().with_recipient("a@x.com").with_subject("").with_body("");
    assert_eq!(mb.parameter(), "a@x.com");
}

#[test]
fn reserved_characters_in_every_field() {
    let mb = MessageBuilder::new()
        .with_recipient("\"A&B\" <ab@x.com>")
        .with_recipient_cc("c?@x.com")
        .with_recipient_bcc("100%@x.com")
        .with_subject("a=b&c=d")
        .with_body("\"quoted\"");
    assert_eq!(
        mb.parameter(),
        "%22A%26B%22 <ab@x.com>&cc=c%3F@x.com&bcc=100%25@x.com&subject=a=b%26c=d&body=%22quoted%22"
    );
}

#[test]
fn ampersands_in_the_parameter_are_separators_only() {
    let mb = MessageBuilder::new()
        .with_recipient("a&b@x.com")
        .with_subject("x&y")
        .with_body("p&q&r");
    let parameter = mb.parameter();
    assert_eq!(parameter.matches('&').count(), 2);
}

#[test]
fn body_keeps_its_line_breaks() {
    let mb = MessageBuilder::new().with_body("Line with spaces\nAnother line");
    assert_eq!(mb.parameter(), "body=Line with spaces\nAnother line");
}

#[test]
fn setters_take_owned_and_borrowed_text() {
    let owned = MessageBuilder::new()
        .with_recipient(String::from("a@x.com"))
        .with_recipient_cc(String::from("c@x.com"))
        .with_recipient_bcc(String::from("b@x.com"))
        .with_subject(String::from("subject"))
        .with_body(String::from("body"))
        .with_attachment(String::from("file"));
    let borrowed = MessageBuilder::new()
        .with_recipient("a@x.com")
        .with_recipient_cc("c@x.com")
        .with_recipient_bcc("b@x.com")
        .with_subject("subject")
        .with_body("body")
        .with_attachment("file");
    assert_eq!(owned, borrowed);
    assert_eq!(owned.subject(), "subject");
    assert_eq!(owned.recipients()[0], "a@x.com");
}

#[test]
fn arguments_of_a_full_message() {
    let mb = MessageBuilder::new()
        .with_recipient("noreply@example.org")
        .with_subject("Hello, World!")
        .with_body("Line with spaces\nAnother line")
        .with_attachment("C:/tmp/file.txt");
    assert_eq!(
        mb.arguments(),
        vec![
            "/c",
            "ipm.note",
            "/m",
            "noreply@example.org&subject=Hello, World!&body=Line with spaces\nAnother line",
            "/a",
            "C:/tmp/file.txt",
        ]
    );
}

#[test]
fn no_executable_means_no_invocation() {
    let mb = MessageBuilder::new().with_recipient("a@x.com").with_subject("s");
    assert_eq!(mb.invocation(None), Err(LaunchError::ResourceNotFound));
}

#[test]
fn empty_builder_without_executable_is_not_found_either() {
    assert_eq!(MessageBuilder::new().invocation(None), Err(LaunchError::ResourceNotFound));
}

#[test]
fn invocation_runs_the_located_program() {
    let mb = MessageBuilder::new()
        .with_recipient("a@x.com")
        .with_subject("s?")
        .with_attachment("C:/tmp/file.txt");
    let expected = Invocation {
        program: "C:\\Program Files\\Microsoft Office\\OUTLOOK.EXE".to_string(),
        arguments: vec![
            "/c".to_string(),
            "ipm.note".to_string(),
            "/m".to_string(),
            "a@x.com&subject=s%3F".to_string(),
            "/a".to_string(),
            "C:/tmp/file.txt".to_string(),
        ],
    };
    let located = Some("C:\\Program Files\\Microsoft Office\\OUTLOOK.EXE".to_string());
    assert_eq!(mb.invocation(located), Ok(expected));
}

#[test]
fn invocation_keeps_the_arguments_of_the_builder() {
    let mb = MessageBuilder::new().with_body("b");
    let arguments = mb.arguments();
    let command = mb.invocation(Some("outlook".to_string())).unwrap();
    assert_eq!(command.program, "outlook");
    assert_eq!(command.arguments, arguments);
}
