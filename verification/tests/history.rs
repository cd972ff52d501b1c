use stgit::history::{LogError, StateLog};
use stgit::oid::ObjectId;
use stgit::stack::StackState;

fn oid(n: u8) -> ObjectId {
    ObjectId::from_bytes([n; 20])
}

fn state(prev: Option<u8>) -> StackState {
    StackState::assemble(prev.map(oid), oid(1), vec![], vec![], vec![]).unwrap()
}

fn log_of_three() -> StateLog {
    let mut log = StateLog::new();
    assert_eq!(log.record(oid(10), state(None)), Ok(()));
    assert_eq!(log.record(oid(11), state(Some(10))), Ok(()));
    assert_eq!(log.record(oid(12), state(Some(11))), Ok(()));
    log
}

#[test]
fn log_starts_with_a_state_without_predecessor() {
    let mut log = StateLog::new();
    assert_eq!(log.len(), 0);
    assert_eq!(log.record(oid(10), state(Some(9))), Err(LogError::BrokenLink));
    assert_eq!(log.len(), 0);
    assert_eq!(log.record(oid(10), state(None)), Ok(()));
    assert_eq!(log.len(), 1);
}

#[test]
fn log_takes_states_that_follow_its_last() {
    let mut log = log_of_three();
    assert_eq!(log.record(oid(13), state(Some(11))), Err(LogError::BrokenLink));
    assert_eq!(log.record(oid(13), state(None)), Err(LogError::BrokenLink));
    assert_eq!(log.record(oid(11), state(Some(12))), Err(LogError::KnownCommit));
    assert_eq!(log.record(oid(12), state(Some(12))), Err(LogError::KnownCommit));
    assert_eq!(log.len(), 3);
    assert_eq!(log.record(oid(13), state(Some(12))), Ok(()));
    assert_eq!(log.len(), 4);
}

#[test]
fn following_prev_goes_down_to_the_first_state() {
    let log = log_of_three();
    let mut at = log.position(&oid(12));
    let mut visited: Vec<usize> = Vec::new();
    while let Some(i) = at {
        visited.push(i);
        at = match log.get(i).unwrap().state.prev() {
            Some(p) => log.position(&p),
            None => None,
        };
    }
    assert_eq!(visited, vec![2, 1, 0]);
}

#[test]
fn log_finds_states_by_commit() {
    let log = log_of_three();
    assert_eq!(log.position(&oid(10)), Some(0));
    assert_eq!(log.position(&oid(12)), Some(2));
    assert_eq!(log.position(&oid(13)), None);
    assert_eq!(log.get(1).unwrap().commit, oid(11));
    assert_eq!(log.get(1).unwrap().state, state(Some(10)));
    assert!(log.get(3).is_none());
}
