use knot_nm_dns_update::atomic::{atomic_write, temp_name, temp_path, WriteAction, WriteStep};

const STEPS: [WriteStep; 7] = [
    WriteStep::FindParent,
    WriteStep::MakeParent,
    WriteStep::FindName,
    WriteStep::Create,
    WriteStep::Write,
    WriteStep::Sync,
    WriteStep::Rename,
];

#[test]
fn work_is_done_in_order() {
    for i in 0..6 {
        assert_eq!(atomic_write(STEPS[i], true), WriteAction::Run(STEPS[i + 1]));
    }
    assert_eq!(atomic_write(WriteStep::Rename, true), WriteAction::Done);
}

#[test]
fn targets_without_a_directory_or_a_name_are_refused() {
    for step in &STEPS[..3] {
        assert_eq!(atomic_write(*step, false), WriteAction::Fail(*step));
    }
}

#[test]
fn failures_discard_the_temporary_file() {
    for step in &STEPS[3..] {
        assert_eq!(atomic_write(*step, false), WriteAction::Discard(*step));
    }
}

#[test]
fn temporary_names() {
    assert_eq!(temp_name("resolv.conf", 0, 10), ".resolv.conf.tmp-0-10");
    assert_eq!(
        temp_name("x", u32::MAX, u128::MAX),
        ".x.tmp-4294967295-340282366920938463463374607431768211455"
    );
    assert_ne!(temp_name("x", 1, 23), temp_name("x", 12, 3));
}

#[test]
fn temporary_files_lie_beside_their_targets() {
    assert_eq!(
        temp_path("/etc/resolv.conf", 7, 10).as_deref(),
        Some("/etc/.resolv.conf.tmp-7-10")
    );
    assert_eq!(temp_path("/x", 1, 2).as_deref(), Some("/.x.tmp-1-2"));
    assert_eq!(temp_path("x", 1, 2).as_deref(), Some(".x.tmp-1-2"));
    assert_eq!(temp_path("./a//b/", 1, 2).as_deref(), Some("./a/.b.tmp-1-2"));
    for path in ["", "/", ".", "a/.."] {
        assert_eq!(temp_path(path, 1, 2), None);
    }
}

/// The contents of the target and the temporary file after a replacement of "old" by "new" in
/// which the step at `fails`, if any, fails.
fn replaced(fails: Option<usize>) -> (&'static str, Option<&'static str>) {
    let mut target = "old";
    let mut temp = None;
    let mut step = WriteStep::FindParent;
    loop {
        let ok = fails != STEPS.iter().position(|s| *s == step);
        match step {
            WriteStep::Create if ok => temp = Some(""),
            WriteStep::Write => temp = Some(if ok { "new" } else { "n" }),
            WriteStep::Rename if ok => target = temp.take().unwrap(),
            _ => {}
        }
        match atomic_write(step, ok) {
            WriteAction::Run(next) => step = next,
            WriteAction::Done | WriteAction::Fail(_) => return (target, temp),
            WriteAction::Discard(_) => return (target, None),
        }
    }
}

#[test]
fn targets_hold_the_old_contents_or_the_new() {
    assert_eq!(replaced(None), ("new", None));
    for i in 0..7 {
        assert_eq!(replaced(Some(i)), ("old", None));
    }
}
