//! Matrix scanner behaviour: debounce, diff, and note events.
use matrix_midi::events::MidiEvent;
use matrix_midi::matrix::{Matrix, DEBOUNCE_WINDOW, NOTE_BASE};

const IDLE: [bool; 8] = [false; 8];

fn tick_all(m: &mut Matrix, samples: [bool; 8], ticks: usize) -> Vec<Vec<Option<MidiEvent>>> {
    let mut out = Vec::new();
    for _ in 0..ticks {
        out.push(m.render_notes(&samples));
    }
    out
}

#[test]
fn no_events_while_idle() {
    let mut m = Matrix::new();
    for evs in tick_all(&mut m, IDLE, 20) {
        assert!(evs.iter().all(|e| e.is_none()));
        assert_eq!(evs.len(), 64);
    }
}

#[test]
fn press_fires_after_debounce_window() {
    let mut m = Matrix::new();
    let mut row0 = IDLE;
    row0[0] = true;
    let ticks = tick_all(&mut m, row0, DEBOUNCE_WINDOW as usize);
    // no event before the window elapses
    for evs in &ticks[..DEBOUNCE_WINDOW as usize - 1] {
        assert!(evs.iter().all(|e| e.is_none()));
    }
    // on the final tick every cell of row 0 fires note-on at velocity 127
    let last = &ticks[DEBOUNCE_WINDOW as usize - 1];
    for (i, ev) in last.iter().enumerate() {
        if i % 8 == 0 {
            assert_eq!(
                *ev,
                Some(MidiEvent::NoteOn(1, NOTE_BASE + i as u8, 127)),
                "cell {i}"
            );
        } else {
            assert!(ev.is_none(), "cell {i}");
        }
    }
}

#[test]
fn short_transition_is_filtered() {
    // a 5-tick press, well under the window, never reaches a diff
    let mut m = Matrix::new();
    let mut row0 = IDLE;
    row0[0] = true;
    for evs in tick_all(&mut m, row0, 5) {
        assert!(evs.iter().all(|e| e.is_none()));
    }
    for evs in tick_all(&mut m, IDLE, 20) {
        assert!(evs.iter().all(|e| e.is_none()));
    }
}

#[test]
fn settled_rescan_yields_empty_diff() {
    let mut m = Matrix::new();
    let mut row3 = IDLE;
    row3[3] = true;
    tick_all(&mut m, row3, DEBOUNCE_WINDOW as usize);
    // the level is settled now: scanning again with no change emits nothing
    let again = m.render_notes(&row3);
    assert!(again.iter().all(|e| e.is_none()));
    let and_again = m.render_notes(&row3);
    assert!(and_again.iter().all(|e| e.is_none()));
}

#[test]
fn press_release_press_event_triple() {
    let mut m = Matrix::new();
    let mut row2 = IDLE;
    row2[2] = true;
    let w = DEBOUNCE_WINDOW as usize;
    let cell = 2;  // column 0, row 2
    let note = NOTE_BASE + cell as u8;

    let press1 = tick_all(&mut m, row2, w);
    let release = tick_all(&mut m, IDLE, w);
    let press2 = tick_all(&mut m, row2, w);

    let seq: Vec<MidiEvent> = press1
        .iter()
        .chain(release.iter())
        .chain(press2.iter())
        .filter_map(|evs| evs[cell])
        .collect();
    assert_eq!(
        seq,
        vec![
            MidiEvent::NoteOn(1, note, 127),
            MidiEvent::NoteOff(1, note, 0),
            MidiEvent::NoteOn(1, note, 127),
        ]
    );
}

#[test]
fn note_identity_fixed_per_cell() {
    // every event a cell ever emits carries the same chromatic note
    let mut m = Matrix::new();
    let all = [true; 8];
    let w = DEBOUNCE_WINDOW as usize;
    let mut seen: Vec<Vec<u8>> = vec![Vec::new(); 64];
    for evs in tick_all(&mut m, all, w)
        .into_iter()
        .chain(tick_all(&mut m, IDLE, w))
        .chain(tick_all(&mut m, all, w))
    {
        for (i, ev) in evs.iter().enumerate() {
            match ev {
                Some(MidiEvent::NoteOn(_, n, _)) | Some(MidiEvent::NoteOff(_, n, _)) => {
                    seen[i].push(*n)
                }
                None => {}
            }
        }
    }
    for (i, notes) in seen.iter().enumerate() {
        assert!(!notes.is_empty(), "cell {i} never fired");
        assert!(notes.iter().all(|n| *n == NOTE_BASE + i as u8), "cell {i}");
    }
}
