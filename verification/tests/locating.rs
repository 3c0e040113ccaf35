use outlook_exe::locator::{APP_PATH_SUBKEY, EXECUTABLE_NAME};
use outlook_exe::{ExecutableLocator, LaunchError, MessageBuilder};

#[test]
fn lookup_is_made_once() {
    let mut calls = 0;
    let mut locator = ExecutableLocator::new();
    let first = locator.locate(|| {
        calls += 1;
        Some("C:/Office/OUTLOOK.EXE".to_string())
    });
    let second = locator.locate(|| {
        calls += 1;
        Some("D:/Elsewhere/OUTLOOK.EXE".to_string())
    });
    assert_eq!(first, Some("C:/Office/OUTLOOK.EXE".to_string()));
    assert_eq!(second, first);
    assert_eq!(calls, 1);
}

#[test]
fn absence_is_remembered_too() {
    let mut calls = 0;
    let mut locator = ExecutableLocator::new();
    let first = locator.locate(|| {
        calls += 1;
        None
    });
    let second = locator.locate(|| {
        calls += 1;
        Some("C:/Office/OUTLOOK.EXE".to_string())
    });
    let third = locator.locate(|| {
        calls += 1;
        None
    });
    assert_eq!(first, None);
    assert_eq!(second, None);
    assert_eq!(third, None);
    assert_eq!(calls, 1);
}

#[test]
fn locator_resolves_with_its_first_call() {
    let mut locator = ExecutableLocator::new();
    assert!(!locator.is_resolved());
    let found = locator.locate(|| Some("outlook".to_string()));
    assert_eq!(found, Some("outlook".to_string()));
    assert!(locator.is_resolved());
    let again = locator.locate(|| None);
    assert_eq!(again, Some("outlook".to_string()));
    assert!(locator.is_resolved());
}

#[test]
fn default_locator_is_unresolved() {
    assert!(!ExecutableLocator::default().is_resolved());
    assert_eq!(ExecutableLocator::default(), ExecutableLocator::new());
}

#[test]
fn absent_executable_stops_the_launch() {
    let mut spawned = 0;
    let mut locator = ExecutableLocator::new();
    let message = MessageBuilder::new().with_recipient("a@x.com");
    let outcome = message.invocation(locator.locate(|| None));
    if outcome.is_ok() {
        spawned += 1;
    }
    assert_eq!(outcome, Err(LaunchError::ResourceNotFound));
    assert_eq!(spawned, 0);
}

#[test]
fn located_executable_becomes_the_program() {
    let mut locator = ExecutableLocator::new();
    let first = MessageBuilder::new().with_subject("one");
    let second = MessageBuilder::new().with_subject("two");
    let a = first.invocation(locator.locate(|| Some("C:/Office/OUTLOOK.EXE".to_string())));
    let b = second.invocation(locator.locate(|| None));
    assert_eq!(a.unwrap().program, "C:/Office/OUTLOOK.EXE");
    assert_eq!(b.unwrap().program, "C:/Office/OUTLOOK.EXE");
}

#[test]
fn registry_key_names_the_executable() {
    assert_eq!(EXECUTABLE_NAME, "OUTLOOK.EXE");
    assert_eq!(
        APP_PATH_SUBKEY,
        "SOFTWARE\\Microsoft\\Windows\\CurrentVersion\\App Paths\\OUTLOOK.EXE"
    );
    assert!(APP_PATH_SUBKEY.ends_with(EXECUTABLE_NAME));
}
