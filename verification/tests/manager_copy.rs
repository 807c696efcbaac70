use std::cell::{Cell, RefCell};

use herdr_annotate::format::format_annotations;
use herdr_annotate::manager_copy::{copy_annotations, ManagerCopyOutcome};
use herdr_annotate::types::{Annotation, InvocationContext};

fn annotation(id: &str) -> Annotation {
    Annotation {
        selected_text: format!("selection {id}"),
        context: InvocationContext::default(),
        captured_at: "captured".to_owned(),
        id: id.to_owned(),
        comment: format!("comment {id}"),
        created_at: "created".to_owned(),
    }
}

#[test]
fn successful_copy_closes_without_changing_annotations() {
    let annotations = vec![annotation("one"), annotation("two")];
    let original = annotations.clone();
    let clipboard = RefCell::new(String::new());
    let (outcome, _) = copy_annotations(&annotations, |text: &str| {
        text.clone_into(&mut clipboard.borrow_mut());
        Ok(())
    });
    assert_eq!(outcome, ManagerCopyOutcome::Close);
    assert!(clipboard.borrow().contains("selection one"));
    assert!(clipboard.borrow().contains("selection two"));
    assert_eq!(annotations, original);
}

#[test]
fn clipboard_failure_stays_open() {
    let (outcome, _) = copy_annotations(&[annotation("one")], |_: &str| {
        Err("Clipboard unavailable".to_owned())
    });
    assert_eq!(
        outcome,
        ManagerCopyOutcome::StayOpen {
            message: "Clipboard unavailable".to_owned()
        }
    );
}

#[test]
fn empty_copy_stays_open_without_writing() {
    let writes = Cell::new(0);
    let (outcome, _) = copy_annotations(&[], |_: &str| {
        writes.set(writes.get() + 1);
        Ok(())
    });
    assert_eq!(
        outcome,
        ManagerCopyOutcome::StayOpen {
            message: "Nothing to copy.".to_owned()
        }
    );
    assert_eq!(writes.get(), 0);
}

#[test]
fn the_manager_copies_in_the_order_given() {
    let annotations = vec![annotation("one"), annotation("two")];
    let clipboard = RefCell::new(String::new());
    copy_annotations(&annotations, |text: &str| {
        text.clone_into(&mut clipboard.borrow_mut());
        Ok(())
    });
    assert_eq!(*clipboard.borrow(), format_annotations(&annotations));
}
