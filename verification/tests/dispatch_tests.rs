use xscan::dispatch::Dispatcher;
use xscan::outcome::{ScanError, ScanOutcome};
use xscan::pipeline::check_xss_reflection;
use xscan::outcome::FetchOutput;

fn urls(list: &[&str]) -> Vec<String> {
    list.iter().map(|u| String::from(*u)).collect()
}

fn in_flight(d: &Dispatcher) -> usize {
    d.next - d.completed
}

#[test]
fn admission_respects_the_limit() {
    let mut d = Dispatcher::new(urls(&["u0", "u1", "u2", "u3", "u4"]), 2);
    assert_eq!(d.try_admit(), Some(0));
    assert_eq!(d.try_admit(), Some(1));
    // two runs are in flight: the third admission must wait
    assert_eq!(d.try_admit(), None);
    assert!(in_flight(&d) <= 2);
    assert!(d.can_complete(1));
    d.complete(1, ScanOutcome::NotReflected { status: 200 });
    assert_eq!(d.try_admit(), Some(2));
    assert_eq!(d.try_admit(), None);
    assert!(in_flight(&d) <= 2);
}

#[test]
fn every_url_gets_exactly_one_outcome_out_of_order() {
    let mut d = Dispatcher::new(urls(&["a", "b", "c"]), 3);
    assert_eq!(d.try_admit(), Some(0));
    assert_eq!(d.try_admit(), Some(1));
    assert_eq!(d.try_admit(), Some(2));
    assert_eq!(d.try_admit(), None);
    // completion order differs from admission order
    d.complete(2, ScanOutcome::NotReflected { status: 202 });
    d.complete(0, ScanOutcome::NotReflected { status: 200 });
    assert!(!d.is_done());
    d.complete(1, ScanOutcome::NotReflected { status: 201 });
    assert!(d.is_done());
    let results = d.into_results();
    assert_eq!(results.len(), 3);
    assert_eq!(results[0], (String::from("a"), ScanOutcome::NotReflected { status: 200 }));
    assert_eq!(results[1], (String::from("b"), ScanOutcome::NotReflected { status: 201 }));
    assert_eq!(results[2], (String::from("c"), ScanOutcome::NotReflected { status: 202 }));
}

#[test]
fn empty_batch_yields_empty_results() {
    let mut d = Dispatcher::new(Vec::new(), 5);
    assert_eq!(d.try_admit(), None);
    assert!(d.is_done());
    assert_eq!(d.into_results().len(), 0);
}

#[test]
fn a_slot_completes_only_once() {
    let mut d = Dispatcher::new(urls(&["a", "b"]), 2);
    assert_eq!(d.try_admit(), Some(0));
    assert!(!d.can_complete(1), "unadmitted runs cannot complete");
    assert!(d.can_complete(0));
    d.complete(0, ScanOutcome::NotReflected { status: 200 });
    assert!(!d.can_complete(0), "a completed run cannot complete again");
}

#[test]
fn one_bad_url_fails_alone() {
    let url_list = urls(&[
        "http://a/?x=%3Cb%3Ehi%3C%2Fb%3E",
        "://not-a-url",
        "http://c/plain",
    ]);
    let mut d = Dispatcher::new(url_list.clone(), 2);
    loop {
        while let Some(i) = d.try_admit() {
            let url = d.url_of(i);
            let outcome = check_xss_reflection(
                &url,
                Ok(FetchOutput { status: 200, body: b"<b>hi</b>".to_vec() }),
            );
            if d.can_complete(i) {
                d.complete(i, outcome);
            }
        }
        if d.is_done() {
            break;
        }
    }
    let results = d.into_results();
    assert_eq!(results.len(), 3);
    assert_eq!(results[0].0, url_list[0]);
    assert_eq!(
        results[0].1,
        ScanOutcome::Reflected { tag: b"<b>hi</b>".to_vec(), status: 200 }
    );
    match &results[1].1 {
        ScanOutcome::Failed { error: ScanError::UrlParse { .. } } => {},
        other => panic!("expected a UrlParse failure, got {:?}", other),
    }
    assert_eq!(results[2].1, ScanOutcome::NotReflected { status: 200 });
}
