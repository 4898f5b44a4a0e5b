use wip::{Item, LoadError, Op, Payload, ReplayError, WIP};

fn item(s: &str) -> Item {
    Item::new(String::from(s))
}

fn stamped(payload: Payload) -> Op {
    Op { occurred_at: String::from("2021-01-02T15:04:05-0700"), payload }
}

#[test]
fn empty_log_shows_no_wip() {
    let wip = WIP::new();
    assert_eq!(wip.show().unwrap(), "No WIP");
}

#[test]
fn load_of_no_lines_shows_no_wip() {
    let lines: Vec<String> = Vec::new();
    let wip = WIP::load(&lines).unwrap();
    assert_eq!(wip.show().unwrap(), "No WIP");
}

#[test]
fn push_show_round_trip() {
    let mut wip = WIP::new();
    wip.push(item("a"));
    wip.push(item("b"));
    assert_eq!(wip.show().unwrap(), "1: b\n0: a\n");
}

#[test]
fn pop_on_empty_is_a_no_op() {
    let mut wip = WIP::new();
    wip.append(stamped(Payload::Pop));
    let items = wip.items().unwrap();
    assert_eq!(items.len(), 0);
    assert_eq!(wip.show().unwrap(), "No WIP");
}

#[test]
fn pop_removes_the_top() {
    let mut wip = WIP::new();
    wip.push(item("a"));
    wip.push(item("b"));
    wip.pop();
    assert_eq!(wip.show().unwrap(), "0: a\n");
}

#[test]
fn focus_promotes_to_the_top() {
    let mut wip = WIP::new();
    wip.push(item("a"));
    wip.push(item("b"));
    wip.push(item("c"));
    wip.focus(0);
    let items = wip.items().unwrap();
    let labels: Vec<String> = items.iter().map(|it| it.to_string()).collect();
    assert_eq!(labels, vec!["b", "c", "a"]);
    assert_eq!(wip.show().unwrap(), "2: a\n1: c\n0: b\n");
}

#[test]
fn focus_out_of_range_faults() {
    let mut wip = WIP::new();
    wip.push(item("a"));
    wip.push(item("b"));
    wip.focus(5);
    let fault: ReplayError = wip.items().unwrap_err();
    assert_eq!(fault.index, 5);
    assert_eq!(fault.len, 2);
    assert!(wip.show().is_err());
}

#[test]
fn append_is_ordered_across_invocations() {
    // Each record is appended by a fresh load of the lines written so far,
    // as separate runs of the tool would do.
    let ops = [
        Payload::Push(item("a")),
        Payload::Push(item("b")),
        Payload::Focus(0),
        Payload::Push(item("c")),
        Payload::Pop,
    ];
    let mut lines: Vec<String> = Vec::new();
    for op in ops {
        let mut wip = WIP::load(&lines).unwrap();
        lines.push(wip.append(stamped(op)));
    }
    let loaded = WIP::load(&lines).unwrap();
    assert_eq!(loaded.ops().len(), 5);

    // One pass over the same records in one log gives the same projection.
    let mut one_pass = WIP::new();
    one_pass.push(item("a"));
    one_pass.push(item("b"));
    one_pass.focus(0);
    one_pass.push(item("c"));
    one_pass.pop();
    assert_eq!(loaded.show().unwrap(), one_pass.show().unwrap());
    assert_eq!(loaded.show().unwrap(), "1: a\n0: b\n");
}

#[test]
fn load_is_idempotent() {
    let mut wip = WIP::new();
    let mut lines: Vec<String> = Vec::new();
    lines.push(wip.push(item("a")));
    lines.push(wip.focus(0));
    let first = WIP::load(&lines).unwrap();
    let second = WIP::load(&lines).unwrap();
    assert_eq!(first.ops().len(), second.ops().len());
    assert_eq!(first.show().unwrap(), second.show().unwrap());
}

#[test]
fn record_lines_have_the_stable_format() {
    let mut wip = WIP::new();
    let push_line = wip.append(stamped(Payload::Push(item("fix the build"))));
    let pop_line = wip.append(stamped(Payload::Pop));
    let focus_line = wip.append(stamped(Payload::Focus(12345)));
    assert_eq!(
        push_line,
        "{\"occurred_at\":\"2021-01-02T15:04:05-0700\",\"type\":\"push\",\"payload\":\"fix the build\"}"
    );
    assert_eq!(pop_line, "{\"occurred_at\":\"2021-01-02T15:04:05-0700\",\"type\":\"pop\"}");
    assert_eq!(
        focus_line,
        "{\"occurred_at\":\"2021-01-02T15:04:05-0700\",\"type\":\"focus\",\"payload\":12345}"
    );
}

#[test]
fn loads_a_handwritten_line() {
    let lines = vec![String::from(
        "{\"occurred_at\":\"2021-01-02T15:04:05-0700\",\"type\":\"push\",\"payload\":\"a\"}",
    )];
    let wip = WIP::load(&lines).unwrap();
    assert_eq!(wip.show().unwrap(), "0: a\n");
    assert_eq!(wip.ops()[0].occurred_at, "2021-01-02T15:04:05-0700");
}

#[test]
fn awkward_labels_round_trip() {
    let texts = ["say \"hi\"", "back\\slash", "two\nlines", "tab\there", "carriage\rreturn"];
    for text in texts {
        let mut wip = WIP::new();
        let line = wip.append(stamped(Payload::Push(item(text))));
        assert!(!line.contains('\n'));
        let loaded = WIP::load(&vec![line]).unwrap();
        let items = loaded.items().unwrap();
        assert_eq!(items.len(), 1);
        assert_eq!(items[0].to_string(), text);
    }
}

#[test]
fn empty_lines_are_skipped() {
    let mut wip = WIP::new();
    let line = wip.append(stamped(Payload::Push(item("a"))));
    let lines = vec![String::new(), line, String::new()];
    let loaded = WIP::load(&lines).unwrap();
    assert_eq!(loaded.show().unwrap(), "0: a\n");
}

#[test]
fn malformed_lines_fail_the_whole_load() {
    let mut wip = WIP::new();
    let good = wip.append(stamped(Payload::Push(item("a"))));
    let cases = [
        String::from("not a record"),
        String::from("{\"occurred_at\":\"T\",\"type\":\"nap\"}"),
        String::from("{\"occurred_at\":\"T\",\"type\":\"pop\"} trailing"),
        String::from("{\"occurred_at\":\"T\",\"type\":\"focus\",\"payload\":01}"),
        String::from("{\"occurred_at\":\"T\",\"type\":\"focus\",\"payload\":18446744073709551616}"),
        String::from("{\"occurred_at\":\"T\",\"type\":\"push\",\"payload\":\"unclosed}"),
    ];
    for bad in cases {
        let lines = vec![good.clone(), bad.clone()];
        let err: LoadError = WIP::load(&lines).unwrap_err();
        assert_eq!(err.line, 1, "line should be rejected: {}", bad);
    }
}

#[test]
fn the_largest_focus_index_round_trips() {
    let mut wip = WIP::new();
    let line = wip.append(stamped(Payload::Focus(u64::MAX)));
    assert!(line.contains("18446744073709551615"));
    let loaded = WIP::load(&vec![line]).unwrap();
    let fault = loaded.items().unwrap_err();
    assert_eq!(fault.index, u64::MAX);
    assert_eq!(fault.len, 0);
}

#[test]
fn timestamps_with_awkward_characters_round_trip() {
    let mut wip = WIP::new();
    let line = wip.append(Op {
        occurred_at: String::from("quote \" and \\ slash"),
        payload: Payload::Pop,
    });
    let loaded = WIP::load(&vec![line]).unwrap();
    assert_eq!(loaded.ops()[0].occurred_at, "quote \" and \\ slash");
}

#[test]
fn item_text_is_kept() {
    let it = item("hello");
    assert!(!it.is_empty());
    assert_eq!(it.to_string(), "hello");
    assert!(item("").is_empty());
}

#[test]
fn push_stamps_with_the_clock() {
    // The timestamp comes from the wall clock; the record still renders and
    // reloads as one well-formed line.
    let mut wip = WIP::new();
    let line = wip.push(item("a"));
    let loaded = WIP::load(&vec![line]).unwrap();
    assert_eq!(loaded.show().unwrap(), "0: a\n");
}

#[test]
fn apply_folds_one_step() {
    let stack = vec![item("a"), item("b")];
    let stack = Payload::Push(item("c")).apply(stack).unwrap();
    assert_eq!(stack.len(), 3);
    assert_eq!(stack[2].to_string(), "c");

    let stack = stamped(Payload::Focus(0)).apply(stack).unwrap();
    let labels: Vec<String> = stack.iter().map(|it| it.to_string()).collect();
    assert_eq!(labels, vec!["b", "c", "a"]);

    let stack = Payload::Pop.apply(stack).unwrap();
    assert_eq!(stack.len(), 2);

    let fault = Payload::Focus(9).apply(stack).unwrap_err();
    assert_eq!(fault.index, 9);
    assert_eq!(fault.len, 2);
}
