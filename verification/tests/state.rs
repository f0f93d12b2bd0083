use sparse_life::Command;
use sparse_life::InvalidCommand;
use sparse_life::State;

#[test]
fn starts_from_setup() {
    let mut state = State::Setup;
    state.handle_command(&Command::Start).unwrap();
    assert_eq!(state, State::Running);
}

#[test]
fn resumes_from_pause() {
    let mut state = State::Paused;
    state.handle_command(&Command::Resume).unwrap();
    assert_eq!(state, State::Running);
}

#[test]
fn quits_from_running() {
    let mut state = State::Running;
    state.handle_command(&Command::Quit).unwrap();
    assert_eq!(state, State::Done);
}

#[test]
fn pauses_from_running() {
    let mut state = State::Running;
    state.handle_command(&Command::Pause).unwrap();
    assert_eq!(state, State::Paused);
}

#[test]
fn rejects_commands_out_of_order() {
    let mut state = State::Setup;
    assert_eq!(state.handle_command(&Command::Pause), Err(InvalidCommand));
    assert_eq!(state, State::Setup);
    assert_eq!(state.handle_command(&Command::Resume), Err(InvalidCommand));
    assert_eq!(state, State::Setup);
    let mut running = State::Running;
    assert_eq!(running.handle_command(&Command::Start), Err(InvalidCommand));
    assert_eq!(running, State::Running);
}

#[test]
fn pause_and_resume_are_idempotent() {
    let mut state = State::Running;
    assert_eq!(state.handle_command(&Command::Pause), Ok(State::Paused));
    assert_eq!(state.handle_command(&Command::Pause), Ok(State::Paused));
    assert_eq!(state, State::Paused);
    assert_eq!(state.handle_command(&Command::Resume), Ok(State::Running));
    assert_eq!(state.handle_command(&Command::Resume), Ok(State::Running));
    assert_eq!(state, State::Running);
}

#[test]
fn quits_from_any_state() {
    for start in [State::Setup, State::Running, State::Paused, State::Done] {
        let mut state = start;
        assert_eq!(state.handle_command(&Command::Quit), Ok(State::Done));
        assert_eq!(state, State::Done);
    }
}
