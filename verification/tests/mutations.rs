use zev::{Actor, Event, MutationError, Step, StepRef, WaitFor};

fn step(long: &[u8], short: &[u8]) -> Step {
    Step { long_name: long.to_vec(), unk1: 0, name: short.to_vec(), unk2: 0, data: vec![] }
}

// one actor with three steps and the edge waiting=(0,2), waiting_on=(0,0)
fn three_step_event() -> Event {
    Event {
        name: b"Ev".to_vec(),
        unk1: 0,
        actors: vec![Actor {
            name: b"actorX".to_vec(),
            unk1: 0,
            unk2: 0,
            steps: vec![step(b"s0", b"aaaa"), step(b"s1", b"bbbb"), step(b"s2", b"cccc")],
        }],
        wait_fors: vec![WaitFor {
            waiting: StepRef { actor_idx: 0, step_idx: 2 },
            waiting_on: StepRef { actor_idx: 0, step_idx: 0 },
        }],
    }
}

#[test]
fn mutation_integrity_on_remove() {
    let mut ev = three_step_event();
    let removed = ev.remove_step(0, 1).unwrap();
    assert_eq!(removed.long_name, b"s1".to_vec());
    assert_eq!(ev.actors[0].steps.len(), 2);
    assert_eq!(ev.wait_fors.len(), 1);
    assert_eq!(ev.wait_fors[0].waiting, StepRef { actor_idx: 0, step_idx: 1 });
    assert_eq!(ev.wait_fors[0].waiting_on, StepRef { actor_idx: 0, step_idx: 0 });
}

#[test]
fn cascading_deletion() {
    // removing the step an edge depends on deletes the edge entirely
    let mut ev = three_step_event();
    ev.remove_step(0, 0).unwrap();
    assert!(ev.wait_fors.is_empty());

    // removing the waiting step does the same
    let mut ev = three_step_event();
    ev.remove_step(0, 2).unwrap();
    assert!(ev.wait_fors.is_empty());
}

#[test]
fn out_of_range_add_wait_changes_nothing() {
    let mut ev = three_step_event();
    let before = ev.wait_fors.clone();
    let r = ev.add_wait(0, 0, 99, 0);
    assert!(matches!(r, Err(MutationError::OutOfRange)));
    assert_eq!(ev.wait_fors, before);
}

#[test]
fn add_wait_replaces_previous_edge() {
    let mut ev = three_step_event();
    ev.add_wait(0, 2, 0, 1).unwrap();
    assert_eq!(ev.wait_fors.len(), 1);
    assert_eq!(ev.wait_fors[0].waiting, StepRef { actor_idx: 0, step_idx: 2 });
    assert_eq!(ev.wait_fors[0].waiting_on, StepRef { actor_idx: 0, step_idx: 1 });
}

#[test]
fn add_step_shifts_edges_up() {
    let mut ev = three_step_event();
    ev.add_step(0, 0, step(b"front", b"dddd")).unwrap();
    assert_eq!(ev.actors[0].steps.len(), 4);
    assert_eq!(ev.actors[0].steps[0].long_name, b"front".to_vec());
    assert_eq!(ev.wait_fors[0].waiting, StepRef { actor_idx: 0, step_idx: 3 });
    assert_eq!(ev.wait_fors[0].waiting_on, StepRef { actor_idx: 0, step_idx: 1 });
}

#[test]
fn add_step_rejects_bad_position() {
    let mut ev = three_step_event();
    assert!(matches!(ev.add_step(0, 4, step(b"x", b"eeee")), Err(MutationError::OutOfRange)));
    assert!(matches!(ev.add_step(1, 0, step(b"x", b"eeee")), Err(MutationError::OutOfRange)));
    assert_eq!(ev.actors[0].steps.len(), 3);
}

#[test]
fn remove_step_rejects_bad_position() {
    let mut ev = three_step_event();
    assert!(matches!(ev.remove_step(0, 3), Err(MutationError::OutOfRange)));
    assert!(matches!(ev.remove_step(2, 0), Err(MutationError::OutOfRange)));
    assert_eq!(ev.actors[0].steps.len(), 3);
}

#[test]
fn remove_waiting_and_lookups() {
    let mut ev = three_step_event();
    assert_eq!(ev.get_waited_on(0, 2), Some((0, 0)));
    assert_eq!(ev.get_waited_on(0, 1), None);
    let waiting = ev.get_waiting(0, 0);
    assert_eq!(waiting, vec![(0usize, 2usize)]);
    ev.remove_waiting(0, 2);
    assert!(ev.get_waits().is_empty());
    // removing again is not an error
    ev.remove_waiting(0, 2);
    assert!(ev.get_waits().is_empty());
}

#[test]
fn remove_all_waits_clears_edges() {
    let mut ev = three_step_event();
    ev.remove_all_waits();
    assert!(ev.get_waits().is_empty());
    assert_eq!(ev.get_actors().len(), 1);
}

#[test]
fn name_setters_validate() {
    let mut ev = three_step_event();
    assert!(ev.set_name(b"NewName".to_vec()).is_ok());
    assert_eq!(ev.get_name(), &b"NewName".to_vec());
    assert!(matches!(
        ev.set_name(vec![b'a'; 33]),
        Err(MutationError::StringTooLong)
    ));
    assert!(matches!(ev.set_name(vec![0xC3, 0xA9]), Err(MutationError::StringNotAscii)));
    assert_eq!(ev.get_name(), &b"NewName".to_vec());

    let mut actor = Actor { name: b"a".to_vec(), unk1: 0, unk2: 0, steps: vec![] };
    assert!(actor.set_name(b"renamed".to_vec()).is_ok());
    assert!(matches!(actor.set_name(vec![b'x'; 40]), Err(MutationError::StringTooLong)));

    let mut st = step(b"long", b"shrt");
    assert!(st.set_longname(b"sixteen_bytes_ok".to_vec()).is_ok());
    assert!(matches!(
        st.set_longname(b"seventeen_bytes_x".to_vec()),
        Err(MutationError::StringTooLong)
    ));
    assert!(st.set_name(b"abcd".to_vec()).is_ok());
    assert!(matches!(st.set_name(b"abc".to_vec()), Err(MutationError::StringSizeWrong)));
    assert!(matches!(st.set_name(vec![0xFF; 4]), Err(MutationError::StringNotAscii)));
    assert_eq!(st.get_name(), &b"abcd".to_vec());
    assert_eq!(st.get_longname(), &b"sixteen_bytes_ok".to_vec());
}

#[test]
fn actor_lookup_by_name() {
    let ev = three_step_event();
    assert_eq!(ev.get_actoridx_for_name(b"actorX"), Some(0));
    assert_eq!(ev.get_actoridx_for_name(b"missing"), None);
}

#[test]
fn flag_accessors() {
    let mut ev = three_step_event();
    ev.set_unk1(42);
    assert_eq!(ev.get_unk1(), 42);
    let mut actor = Actor { name: b"a".to_vec(), unk1: 0, unk2: 0, steps: vec![] };
    actor.set_unk1(7);
    actor.set_unk2(8);
    assert_eq!(actor.get_unk1(), 7);
    assert_eq!(actor.get_unk2(), 8);
    assert!(actor.get_steps().is_empty());
}

#[test]
fn dot_export_text() {
    let ev = Event {
        name: b"E".to_vec(),
        unk1: 0,
        actors: vec![Actor {
            name: b"a".to_vec(),
            unk1: 0,
            unk2: 0,
            steps: vec![step(b"s0", b"aaaa"), step(b"s1", b"bbbb")],
        }],
        wait_fors: vec![WaitFor {
            waiting: StepRef { actor_idx: 0, step_idx: 1 },
            waiting_on: StepRef { actor_idx: 0, step_idx: 0 },
        }],
    };
    let text = ev.to_dot_file();
    let expected = "digraph {\nlabel=\"E\"\nsubgraph cluster_0 {\nlabel=\"0. a\"\naction_0_0 [label=\"0. s0\"]\naction_0_1 [label=\"1. s1\"]\naction_0_0 -> action_0_1\n}\naction_0_0 -> action_0_1\n}\n";
    assert_eq!(String::from_utf8(text).unwrap(), expected);
}
