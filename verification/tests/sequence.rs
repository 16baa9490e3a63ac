use vaporpay::sequence::{Action, Event, Sequencer};

/// A transport that records what it was asked to send and what it reported.
struct Transport {
    log: Vec<String>,
}

fn run(calls: usize, outcomes: &[Event]) -> Transport {
    let mut transport = Transport { log: Vec::new() };
    let mut state = Sequencer::new(calls);
    let mut event = Event::Begin;
    let mut next = 0;
    loop {
        let (after, action) = state.step(event);
        state = after;
        match action {
            Action::Submit(k) => {
                transport.log.push(format!("submit {}", k));
                event = outcomes[next];
                next += 1;
                match event {
                    Event::Completed(_) => transport.log.push(format!("completed {}", k)),
                    _ => transport.log.push(format!("failed {}", k)),
                }
            }
            Action::Finish(receipt) => {
                transport.log.push(format!("finish {}", receipt.is_some()));
                break;
            }
            Action::Abort => {
                transport.log.push("abort".to_string());
                break;
            }
            Action::Ignore => {
                transport.log.push("ignore".to_string());
                break;
            }
        }
    }
    transport
}

#[test]
fn approve_completes_before_fund_is_issued() {
    let t = run(2, &[Event::Completed(Some([1; 32])), Event::Completed(Some([2; 32]))]);
    assert_eq!(t.log, vec!["submit 0", "completed 0", "submit 1", "completed 1", "finish true"]);
    let approve_done = t.log.iter().position(|l| l == "completed 0").unwrap();
    let fund_issued = t.log.iter().position(|l| l == "submit 1").unwrap();
    assert!(approve_done < fund_issued);
}

#[test]
fn fund_goes_out_after_an_approval_without_receipt() {
    let t = run(2, &[Event::Completed(None), Event::Completed(None)]);
    assert_eq!(t.log, vec!["submit 0", "completed 0", "submit 1", "completed 1", "finish false"]);
}

#[test]
fn a_failed_approval_sends_no_fund() {
    let t = run(2, &[Event::Failed]);
    assert_eq!(t.log, vec!["submit 0", "failed 0", "abort"]);
    assert!(!t.log.contains(&"submit 1".to_string()));
}

#[test]
fn a_single_transaction() {
    let t = run(1, &[Event::Completed(Some([9; 32]))]);
    assert_eq!(t.log, vec!["submit 0", "completed 0", "finish true"]);
    let t = run(1, &[Event::Failed]);
    assert_eq!(t.log, vec!["submit 0", "failed 0", "abort"]);
    let t = run(0, &[]);
    assert_eq!(t.log, vec!["ignore"]);
}

#[test]
fn steps_one_by_one() {
    let s = Sequencer::new(2);
    assert_eq!(s, Sequencer { calls: 2, issued: 0, observed: 0, closed: false });
    let (s, a) = s.step(Event::Completed(None));
    assert_eq!(a, Action::Ignore);
    let (s, a) = s.step(Event::Failed);
    assert_eq!(a, Action::Ignore);
    let (s, a) = s.step(Event::Begin);
    assert_eq!(a, Action::Submit(0));
    assert_eq!(s, Sequencer { calls: 2, issued: 1, observed: 0, closed: false });
    let (s, a) = s.step(Event::Begin);
    assert_eq!(a, Action::Ignore);
    let (s, a) = s.step(Event::Completed(Some([3; 32])));
    assert_eq!(a, Action::Submit(1));
    assert_eq!(s, Sequencer { calls: 2, issued: 2, observed: 1, closed: false });
    let (s, a) = s.step(Event::Completed(Some([4; 32])));
    assert_eq!(a, Action::Finish(Some([4; 32])));
    assert_eq!(s, Sequencer { calls: 2, issued: 2, observed: 2, closed: true });
    let (s, a) = s.step(Event::Completed(None));
    assert_eq!(a, Action::Ignore);
    let (s, a) = s.step(Event::Begin);
    assert_eq!(a, Action::Ignore);
    let (_, a) = s.step(Event::Failed);
    assert_eq!(a, Action::Ignore);
}

#[test]
fn nothing_is_sent_after_a_failure() {
    let s = Sequencer::new(3);
    let (s, _) = s.step(Event::Begin);
    let (s, a) = s.step(Event::Completed(None));
    assert_eq!(a, Action::Submit(1));
    let (s, a) = s.step(Event::Failed);
    assert_eq!(a, Action::Abort);
    for event in [Event::Begin, Event::Completed(None), Event::Failed] {
        let (after, a) = s.step(event);
        assert_eq!(a, Action::Ignore);
        assert_eq!(after, s);
    }
}
