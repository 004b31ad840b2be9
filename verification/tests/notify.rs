//! Notifications and their terminal sequences.
use prtop::notify::{build_notifier, osc9_message, Notification, Notifier, NullNotifier, OscNotifier};

#[test]
fn osc9_message_plain() {
    let n = Notification {
        title: "PR merged".to_string(),
        body: "Fix stuff (org/repo#1)".to_string(),
    };
    assert_eq!(osc9_message(&n), "PR merged: Fix stuff (org/repo#1)");
}

#[test]
fn osc9_message_strips_control_chars() {
    let n = Notification {
        title: "PR merged".to_string(),
        body: "evil\x07\x1b]0;pwned\x07title\nnewline".to_string(),
    };
    let msg = osc9_message(&n);
    assert!(!msg.chars().any(|c| c.is_control()), "got: {msg:?}");
    assert_eq!(msg, "PR merged: evil]0;pwnedtitlenewline");
}
#[test]
fn osc9_sequence_is_framed() {
    let n = Notification {
        title: "CI passed".to_string(),
        body: "Fix\x1b stuff (org/repo#1)".to_string(),
    };
    let expected = "\u{1b}]9;CI passed: Fix stuff (org/repo#1)\u{7}";
    assert_eq!(OscNotifier.notify(&n), expected);
    assert_eq!(build_notifier(true).notify(&n), expected);
}

#[test]
fn silent_notifier_writes_nothing() {
    let n = Notification {
        title: "CI passed".to_string(),
        body: "x".to_string(),
    };
    assert_eq!(NullNotifier.notify(&n), "");
    assert_eq!(build_notifier(false).notify(&n), "");
}

#[test]
fn control_characters_are_those_of_unicode() {
    for code in 0u32..0x200 {
        let c = char::from_u32(code).unwrap();
        let n = Notification {
            title: String::new(),
            body: c.to_string(),
        };
        let shown = osc9_message(&n);
        if c.is_control() {
            assert_eq!(shown, ": ");
        } else {
            assert_eq!(shown, format!(": {c}"));
        }
    }
}
