use goose_ifc::{
    Decision, Dependencies, Domain, Exposure, Label, Operation, Readers, Trace, ValueRef,
};

fn shared() -> Label {
    Label::readers("fixture", &["alice", "bob"])
}

fn private() -> Label {
    Label::readers("fixture", &["alice"])
}

fn domain(label: Label) -> Domain {
    Domain {
        audience: label.clone(),
        retained_context: label,
        policy_epoch: "fixture-v1".into(),
    }
}

/// What `serde_json` makes of a payload.
fn encoded<T: serde::Serialize + ?Sized>(payload: &T) -> Option<Vec<u8>> {
    serde_json::to_vec(payload).ok()
}

/// Moves what is to be written behind the lines that were.
fn write_out(trace: &mut Trace, lines: &mut Vec<String>) {
    for record in trace.take_pending() {
        lines.push(record.to_json().text());
    }
}

fn last_line(lines: &[String]) -> serde_json::Value {
    serde_json::from_str(lines.last().unwrap()).unwrap()
}

#[test]
fn reader_lattice_and_monotonicity() {
    let everyone = Label::Known {
        realm: "fixture".into(),
        readers: Readers::Everyone,
    };
    let nobody = Label::readers("fixture", &[]);
    let labels = [
        everyone.clone(),
        nobody.clone(),
        shared(),
        private(),
        Label::readers("fixture", &["bob"]),
        Label::Unknown,
    ];
    for left in &labels {
        assert_eq!(left.join(left), *left);
        for right in &labels {
            let joined = left.join(right);
            assert_eq!(joined, right.join(left));
            for third in &labels {
                assert_eq!(joined.join(third), left.join(&right.join(third)));
                if joined.check_audience(third) == Decision::WouldAllow {
                    assert_eq!(left.check_audience(third), Decision::WouldAllow);
                    assert_eq!(right.check_audience(third), Decision::WouldAllow);
                }
            }
        }
    }
    assert_eq!(shared().join(&everyone), shared());
    assert_eq!(private().join(&Label::readers("fixture", &["bob"])), nobody);
    for audience in &labels {
        assert_eq!(nobody.check_audience(audience), Decision::WouldDeny);
    }
    assert_eq!(everyone.check_audience(&nobody), Decision::WouldDeny);
    assert_eq!(Label::readers("", &["alice"]), Label::Unknown);
    assert_eq!(
        shared().join(&Label::readers("other", &["alice", "bob"])),
        Label::Unknown
    );
}

#[test]
fn independent_shared_work_survives_private_work_but_inline_baseline_does_not() {
    let mut lines = Vec::new();
    let mut trace = Trace::new();
    let repo = trace.source(&encoded("synthetic repository"), shared());
    let rows = trace.source(&encoded("synthetic private rows"), private());
    let mut private_context = trace.enter(domain(private()));
    let private_call = trace.computation(
        &mut private_context,
        Dependencies {
            inputs: vec![rows.reference()],
            ..Dependencies::default()
        },
        true,
    );
    let analysis = trace.output(
        &private_call,
        Operation::ModelOutput,
        &encoded("private analysis"),
    );
    let mut shared_context = trace.enter(domain(shared()));
    let shared_call = trace.computation(
        &mut shared_context,
        Dependencies {
            inputs: vec![repo.reference()],
            ..Dependencies::default()
        },
        true,
    );
    let patch = trace.output(&shared_call, Operation::ModelOutput, &encoded("shared patch"));
    assert_eq!(patch.label(), &shared());
    trace.check_publication(&mut shared_context, patch.reference(), shared(), vec![]);
    write_out(&mut trace, &mut lines);
    assert_eq!(last_line(&lines)["decision"], "would_allow");
    let mixed = trace.computation(
        &mut private_context,
        Dependencies {
            inputs: vec![repo.reference(), analysis.reference()],
            ..Dependencies::default()
        },
        true,
    );
    assert_eq!(mixed.label(), &private());
    trace.check_publication(&mut private_context, mixed.reference(), shared(), vec![]);
    write_out(&mut trace, &mut lines);
    assert_eq!(last_line(&lines)["decision"], "would_deny");
    trace.observe(
        &mut shared_context,
        analysis.reference(),
        Exposure::Delivered,
    );
    write_out(&mut trace, &mut lines);
    assert_eq!(last_line(&lines)["decision"], "would_deny");
    let inline = trace.computation(
        &mut shared_context,
        Dependencies {
            inputs: vec![repo.reference()],
            ..Dependencies::default()
        },
        true,
    );
    assert_eq!(inline.label(), &private());
}

#[test]
fn withholding_and_delivery_are_not_confused_with_policy_decisions() {
    let mut trace = Trace::new();
    let source = trace.source(&encoded("private"), private());
    let mut context = trace.enter(domain(shared()));
    assert_eq!(
        trace
            .observe(&mut context, source.reference(), Exposure::Withheld)
            .label(),
        &shared()
    );
    assert_eq!(
        trace
            .observe(&mut context, source.reference(), Exposure::Delivered)
            .label(),
        &private()
    );
    assert_eq!(
        trace
            .computation(&mut context, Dependencies::default(), true)
            .label(),
        &private()
    );
}

#[test]
fn retained_context_and_every_input_role_contribute() {
    let mut trace = Trace::new();
    let source = trace.source(&encoded("private"), private());
    let mut context = trace.enter(Domain {
        retained_context: private(),
        ..domain(shared())
    });
    assert_eq!(
        trace
            .computation(&mut context, Dependencies::default(), true)
            .label(),
        &private()
    );
    for role in 0..6 {
        let mut context = trace.enter(domain(shared()));
        let mut dependencies = Dependencies::default();
        let roles = [
            &mut dependencies.inputs,
            &mut dependencies.instructions,
            &mut dependencies.history,
            &mut dependencies.schemas,
            &mut dependencies.settings,
            &mut dependencies.control,
        ];
        roles
            .into_iter()
            .nth(role)
            .unwrap()
            .push(source.reference());
        let call = trace.computation(&mut context, dependencies, true);
        assert_eq!(call.label(), &private());
        let safe: serde_json::Value = serde_json::from_str("{\"safe\":true}").unwrap();
        assert_eq!(
            trace
                .output(&call, Operation::ModelOutput, &encoded(&safe))
                .label(),
            &private()
        );
    }
}

#[test]
fn private_selection_cannot_publish_an_independently_public_value() {
    let mut lines = Vec::new();
    let mut trace = Trace::new();
    let shared_value = trace.source(&encoded("shared"), shared());
    let choice = trace.source(&encoded(&false), private());
    let mut context = trace.enter(domain(shared()));
    trace.check_publication(
        &mut context,
        shared_value.reference(),
        shared(),
        vec![choice.reference()],
    );
    write_out(&mut trace, &mut lines);
    assert_eq!(last_line(&lines)["decision"], "would_deny");
    trace.check_publication(&mut context, shared_value.reference(), shared(), vec![]);
    write_out(&mut trace, &mut lines);
    assert_eq!(last_line(&lines)["decision"], "would_deny");
}

#[test]
fn unknown_missing_evicted_and_incomplete_inputs_do_not_recover() {
    let mut trace = Trace::new();
    let evicted = trace.source(&encoded("old"), shared());
    for index in 0..4096 {
        trace.source(&encoded(&index), shared());
    }
    for reference in [evicted.reference(), ValueRef("fabricated".into())] {
        let mut context = trace.enter(domain(shared()));
        assert_eq!(
            trace
                .computation(
                    &mut context,
                    Dependencies {
                        inputs: vec![reference],
                        ..Dependencies::default()
                    },
                    true
                )
                .label(),
            &Label::Unknown
        );
    }
    let mut context = trace.enter(domain(shared()));
    trace.computation(&mut context, Dependencies::default(), false);
    assert_eq!(
        trace
            .computation(&mut context, Dependencies::default(), true)
            .label(),
        &Label::Unknown
    );
}

#[test]
fn the_most_recent_values_resolve_and_older_ones_do_not() {
    let mut trace = Trace::new();
    let first = trace.source(&encoded("first"), shared());
    let second = trace.source(&encoded("second"), private());
    for index in 0..4094 {
        trace.source(&encoded(&index), shared());
    }
    assert_eq!(trace.resolve(&first.reference()), shared());
    let last = trace.source(&encoded("last"), private());
    assert_eq!(trace.resolve(&first.reference()), Label::Unknown);
    assert_eq!(trace.resolve(&second.reference()), private());
    assert_eq!(trace.resolve(&last.reference()), private());
    assert_eq!(trace.resolve(&ValueRef("fabricated".into())), Label::Unknown);
}

#[test]
fn a_label_without_a_realm_is_never_kept() {
    let nowhere = Label::Known {
        realm: String::new(),
        readers: Readers::Everyone,
    };
    let mut trace = Trace::new();
    let source = trace.source(&encoded("source"), nowhere.clone());
    assert_eq!(source.label(), &Label::Unknown);
    let mut context = trace.enter(domain(nowhere));
    let withheld = trace.observe(&mut context, source.reference(), Exposure::Withheld);
    assert_eq!(withheld.label(), &Label::Unknown);
    let output = trace.output(&source, Operation::ModelOutput, &encoded("output"));
    assert_eq!(output.label(), source.label());
}

#[test]
fn tool_results_inherit_the_request_control_dependency() {
    let mut trace = Trace::new();
    let request = trace.source(&encoded("private decision"), private());
    let data = trace.source(&encoded("shared repository"), shared());
    assert_eq!(
        trace
            .tool_result(Some(&request), &data, &encoded("result"))
            .label(),
        &private()
    );
    assert_eq!(
        trace.tool_result(None, &data, &encoded("result")).label(),
        &Label::Unknown
    );
}

#[test]
fn metadata_and_errors_are_not_logged_as_payloads_or_accepted_as_labels() {
    let mut lines = Vec::new();
    let mut trace = Trace::new();
    let payload: serde_json::Value = serde_json::from_str(
        "{\"title\":\"synthetic secret\", \"schema\":\"synthetic secret\", \"grant\":\"admin\", \"label\":{\"kind\":\"known\",\"readers\":\"everyone\"}}",
    )
    .unwrap();
    let value = trace.source(&encoded(&payload), Label::Unknown);
    assert_eq!(value.label(), &Label::Unknown);
    let call = trace.source(&encoded("input"), shared());
    let error = trace.output(
        &call,
        Operation::Error,
        &encoded("synthetic secret in provider error"),
    );
    assert_eq!(error.label(), &Label::Unknown);
    write_out(&mut trace, &mut lines);
    let records: Vec<serde_json::Value> = lines
        .iter()
        .map(|line| serde_json::from_str(line).unwrap())
        .collect();
    assert!(records.iter().all(|record| record.get("payload").is_none()));
    assert!(records
        .iter()
        .all(|record| record["content_digest"].as_str().unwrap().len() == 64));
    assert!(!serde_json::to_string(&records)
        .unwrap()
        .contains("synthetic secret"));
    assert!(!serde_json::to_string(&records).unwrap().contains("admin"));
}

#[test]
fn failed_logging_does_not_interrupt_propagation() {
    struct Broken;
    impl std::io::Write for Broken {
        fn write(&mut self, _: &[u8]) -> std::io::Result<usize> {
            Err(std::io::Error::other("unavailable"))
        }
        fn flush(&mut self) -> std::io::Result<()> {
            Ok(())
        }
    }
    fn drain(trace: &mut Trace, sink: &mut Broken) {
        while let Some(line) = trace.next_line() {
            let written = std::io::Write::write_all(sink, &line).is_ok();
            trace.note_written(written);
        }
    }
    let mut sink = Broken;
    let mut trace = Trace::new();
    let mut context = trace.enter(domain(private()));
    drain(&mut trace, &mut sink);
    let call = trace.computation(&mut context, Dependencies::default(), true);
    drain(&mut trace, &mut sink);
    assert_eq!(call.label(), &private());
    assert!(trace.logging_failed());
}

#[test]
fn nothing_is_written_once_writing_has_failed() {
    let mut trace = Trace::new();
    trace.source(&encoded("first"), shared());
    assert_eq!(trace.take_pending().len(), 1);
    assert_eq!(trace.take_pending().len(), 0);
    trace.source(&encoded("second"), shared());
    trace.note_written(false);
    let value = trace.source(&encoded("third"), shared());
    assert_eq!(value.label(), &shared());
    assert_eq!(trace.take_pending().len(), 0);
    trace.note_written(true);
    assert!(trace.logging_failed());
    assert!(trace.next_line().is_none());
}

#[test]
fn a_record_is_written_as_its_json_text_and_a_line_feed() {
    let mut trace = Trace::new();
    let value = trace.source(&encoded("caf\u{e9}"), Label::readers("caf\u{e9}", &["alice"]));
    let line = trace.next_line().unwrap();
    trace.note_written(true);
    assert!(!trace.logging_failed());
    assert!(trace.next_line().is_none());
    let text = String::from_utf8(line.clone()).unwrap();
    assert!(text.ends_with("}\n"));
    assert!(!text[..text.len() - 1].contains('\n'));
    assert!(text.contains("caf\u{e9}"));
    let parsed: serde_json::Value = serde_json::from_slice(&line).unwrap();
    assert_eq!(parsed["id"], value.reference().0.as_str());
    trace.source(&encoded("again"), shared());
    let record = trace.take_pending().pop().unwrap();
    let mut expected = record.to_json().text().into_bytes();
    expected.push(b'\n');
    assert_eq!(record.line(), expected);
}

#[test]
fn writing_stops_at_the_first_line_that_fails() {
    let mut trace = Trace::new();
    let mut values = Vec::new();
    for name in ["first", "second", "third", "fourth"] {
        values.push(trace.source(&encoded(name), shared()));
    }
    let mut tried: Vec<Vec<u8>> = Vec::new();
    while let Some(line) = trace.next_line() {
        assert!(!trace.logging_failed());
        tried.push(line);
        trace.note_written(tried.len() < 3);
    }
    assert_eq!(tried.len(), 3);
    for (line, value) in tried.iter().zip(&values) {
        let parsed: serde_json::Value = serde_json::from_slice(line).unwrap();
        assert_eq!(parsed["id"], value.reference().0.as_str());
    }
    assert!(trace.logging_failed());
    for value in &values {
        assert_eq!(trace.resolve(&value.reference()), shared());
    }
}

#[test]
fn what_cannot_be_encoded_is_unknown() {
    let mut trace = Trace::new();
    let source = trace.source(&None, shared());
    assert_eq!(source.label(), &Label::Unknown);
    let call = trace.source(&encoded("call"), shared());
    let output = trace.output(&call, Operation::ModelOutput, &None);
    assert_eq!(output.label(), &Label::Unknown);
    let result = trace.tool_result(Some(&call), &call, &None);
    assert_eq!(result.label(), &Label::Unknown);
    let records = trace.take_pending();
    assert_eq!(records[0].content_digest, None);
    assert_eq!(records[1].content_digest, goose_ifc::content_digest(&encoded("call")));
}

#[test]
fn a_record_on_the_wire_has_its_fields_in_order() {
    let mut trace = Trace::new();
    let value = trace.source(&encoded("shared"), shared());
    let mut context = trace.enter(domain(shared()));
    trace.observe(&mut context, value.reference(), Exposure::Withheld);
    let everyone = Label::Known {
        realm: "fixture".into(),
        readers: Readers::Everyone,
    };
    trace.check_publication(&mut context, value.reference(), everyone, vec![]);
    let records = trace.take_pending();
    let id = |index: usize| records[index].id.0.clone();
    let none = "\"instructions\":[],\"history\":[],\"schemas\":[],\"settings\":[],\"control\":[]";
    let label = "{\"kind\":\"known\",\"realm\":\"fixture\",\"readers\":{\"only\":[\"alice\",\"bob\"]}}";
    let digest = goose_ifc::content_digest(&encoded("shared")).unwrap();
    assert_eq!(
        records[0].to_json().text(),
        format!(
            "{{\"version\":1,\"id\":\"{}\",\"operation\":\"source\",\"label\":{label},\"context_ref\":null,\"dependencies\":{{\"inputs\":[],{none}}},\"content_digest\":\"{digest}\",\"inputs_complete\":true}}",
            id(0)
        )
    );
    assert_eq!(
        records[1].to_json().text(),
        format!(
            "{{\"version\":1,\"id\":\"{}\",\"operation\":\"enter_context\",\"label\":{label},\"context_ref\":null,\"dependencies\":{{\"inputs\":[],{none}}},\"content_digest\":null,\"inputs_complete\":true,\"domain\":{{\"audience\":{label},\"retained_context\":{label},\"policy_epoch\":\"fixture-v1\"}}}}",
            id(1)
        )
    );
    assert_eq!(
        records[2].to_json().text(),
        format!(
            "{{\"version\":1,\"id\":\"{}\",\"operation\":\"exposure\",\"label\":{label},\"context_ref\":\"{}\",\"dependencies\":{{\"inputs\":[],{none}}},\"content_digest\":null,\"inputs_complete\":true,\"decision\":\"would_allow\",\"exposure\":\"withheld\",\"checked_ref\":\"{}\"}}",
            id(2),
            id(1),
            id(0)
        )
    );
    assert_eq!(
        records[3].to_json().text(),
        format!(
            "{{\"version\":1,\"id\":\"{}\",\"operation\":\"publication_check\",\"label\":{label},\"context_ref\":\"{}\",\"dependencies\":{{\"inputs\":[\"{}\"],{none}}},\"content_digest\":null,\"inputs_complete\":true,\"decision\":\"would_deny\",\"checked_ref\":\"{}\",\"destination\":{{\"kind\":\"known\",\"realm\":\"fixture\",\"readers\":\"everyone\"}}}}",
            id(3),
            id(2),
            id(0),
            id(0)
        )
    );
    assert_eq!(Label::Unknown.to_json().text(), "{\"kind\":\"unknown\"}");
}

#[test]
fn a_record_writes_its_version_in_decimal() {
    let mut trace = Trace::new();
    trace.source(&None, shared());
    let mut record = trace.take_pending().pop().unwrap();
    for version in [0u8, 7, 10, 42, 100, 255] {
        record.version = version;
        assert!(record
            .to_json()
            .text()
            .starts_with(&format!("{{\"version\":{version},")));
    }
}

#[test]
fn readers_are_listed_in_order_and_once() {
    let label = Label::readers("fixture", &["bob", "alice", "bob", "alicia", "al", "Zoe"]);
    assert_eq!(
        label.to_json().text(),
        "{\"kind\":\"known\",\"realm\":\"fixture\",\"readers\":{\"only\":[\"Zoe\",\"al\",\"alice\",\"alicia\",\"bob\"]}}"
    );
    assert_eq!(
        label,
        Label::readers("fixture", &["al", "alice", "alicia", "bob", "Zoe"])
    );
}

#[test]
fn names_of_values_are_random_identifiers() {
    let mut trace = Trace::new();
    let first = trace.source(&encoded("same"), shared()).reference();
    let second = trace.source(&encoded("same"), shared()).reference();
    assert_ne!(first, second);
    for reference in [first, second] {
        assert_eq!(reference.0.len(), 36);
        for (index, character) in reference.0.chars().enumerate() {
            if [8, 13, 18, 23].contains(&index) {
                assert_eq!(character, '-');
            } else {
                assert!(character.is_ascii_digit() || ('a'..='f').contains(&character));
            }
        }
    }
}

#[test]
fn digests_are_those_of_sha256_over_the_encoding() {
    assert_eq!(
        goose_ifc::content_digest(&Some(b"abc".to_vec())).unwrap(),
        "ba7816bf8f01cfea414140de5dae2223b00361a396177a9cb410ff61f20015ad"
    );
    assert_eq!(
        goose_ifc::content_digest(&Some(Vec::new())).unwrap(),
        "e3b0c44298fc1c149afbf4c8996fb92427ae41e4649b934ca495991b7852b855"
    );
    assert_eq!(goose_ifc::content_digest(&None), None);
}
