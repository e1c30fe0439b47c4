//! The 8x8 matrix scanner: per-row debouncing, full-frame scans, diffing
//! against the recorded state, and the note events a tick yields.
//!
//! The column strobe, settle delay and raw row reads happen at the hardware
//! edge; one tick hands this module the eight raw row samples it read.
use vstd::prelude::*;
use crate::events::{MidiEvent, FIXED_CHANNEL, VELOCITY_ON, VELOCITY_OFF};

verus! {

/// Consecutive opposite samples needed before a debounced row flips.
pub const DEBOUNCE_WINDOW: u8 = 10;

/// Note assigned to cell 0; cell i plays NOTE_BASE + i.
pub const NOTE_BASE: u8 = 36;

/// Debounce state of one row input: the debounced level and how many
/// consecutive samples have disagreed with it.
#[derive(Clone, Copy, Debug, PartialEq, Eq, Structural)]
pub struct Debouncer {
    pub stable: bool,
    pub count: u8,
}

/// One debounce tick: a sample equal to the debounced level resets the
/// counter; an opposite sample advances it, and the level flips once
/// DEBOUNCE_WINDOW opposite samples have arrived in a row.
pub open spec fn step_debouncer(d: Debouncer, sample: bool) -> Debouncer {
    if sample == d.stable {
        Debouncer { stable: d.stable, count: 0 }
    } else if d.count + 1 >= DEBOUNCE_WINDOW {
        Debouncer { stable: sample, count: 0 }
    } else {
        Debouncer { stable: d.stable, count: (d.count + 1) as u8 }
    }
}

impl Debouncer {
    pub open spec fn wf(self) -> bool {
        self.count < DEBOUNCE_WINDOW
    }

    pub fn new() -> (d: Debouncer)
        ensures
            d == (Debouncer { stable: false, count: 0u8 }),
    {
        Debouncer { stable: false, count: 0 }
    }

    /// Advances the debounce state machine by one raw sample.
    pub fn feed(&mut self, sample: bool)
        requires
            old(self).wf(),
        ensures
            *final(self) == step_debouncer(*old(self), sample),
            final(self).wf(),
    {
        if sample == self.stable {
            self.count = 0;
        } else {
            self.count = self.count + 1;
            if self.count >= DEBOUNCE_WINDOW {
                self.stable = sample;
                self.count = 0;
            }
        }
    }
}

/// Recorded state of one cell: its fixed note and the debounced pressed
/// state of the last recorded frame.
#[derive(Clone, Copy, Debug, PartialEq, Eq, Structural)]
pub struct CellState {
    pub note: u8,
    pub pressed: bool,
}

/// Mathematical state of the scanner: eight row debouncers and 64 cells,
/// column-major (cell i = column i/8, row i%8).
#[verifier::ext_equal]
pub struct MatrixModel {
    pub debs: Seq<Debouncer>,
    pub cells: Seq<CellState>,
}

/// The note wired to cell i.
pub open spec fn note_number(i: int) -> u8 {
    (NOTE_BASE + i) as u8
}

pub open spec fn wf_model(m: MatrixModel) -> bool {
    &&& m.debs.len() == 8
    &&& m.cells.len() == 64
    &&& forall|r: int| 0 <= r < 8 ==> (#[trigger] m.debs[r]).wf()
    &&& forall|i: int| 0 <= i < 64 ==> (#[trigger] m.cells[i]).note == note_number(i)
}

/// All eight row debouncers advanced by one sample vector.
pub open spec fn step_debs(debs: Seq<Debouncer>, s: Seq<bool>) -> Seq<Debouncer> {
    Seq::new(debs.len(), |r: int| step_debouncer(debs[r], s[r]))
}

/// The frame a full scan yields: per cell its note and the debounced
/// pressed state of its row.
pub open spec fn frame_of(m: MatrixModel) -> Seq<(u8, bool)> {
    Seq::new(m.cells.len(), |i: int| (m.cells[i].note, m.debs[i % 8].stable))
}

/// One whole tick on the model: debounce all rows with the given samples,
/// then record the resulting frame.
pub open spec fn step_model(m: MatrixModel, s: Seq<bool>) -> MatrixModel {
    let debs2 = step_debs(m.debs, s);
    MatrixModel {
        debs: debs2,
        cells: Seq::new(
            m.cells.len(),
            |i: int| CellState { note: m.cells[i].note, pressed: debs2[i % 8].stable },
        ),
    }
}

/// The diff of a fresh frame against the recorded cells: an entry only
/// where the pressed state changed.
pub open spec fn diff_of(cells: Seq<CellState>, frame: Seq<(u8, bool)>) -> Seq<
    Option<(u8, bool)>,
> {
    Seq::new(
        frame.len(),
        |i: int|
            if frame[i].0 != cells[i].note || frame[i].1 != cells[i].pressed {
                Some(frame[i])
            } else {
                None
            },
    )
}

/// The event a changed cell emits: note-on at fixed velocity when newly
/// pressed, note-off at velocity zero when newly released.
pub open spec fn event_for(note: u8, pressed: bool) -> MidiEvent {
    if pressed {
        MidiEvent::NoteOn(FIXED_CHANNEL, note, VELOCITY_ON)
    } else {
        MidiEvent::NoteOff(FIXED_CHANNEL, note, VELOCITY_OFF)
    }
}

/// The events one tick with the given samples emits, per cell.
pub open spec fn events_of(m: MatrixModel, s: Seq<bool>) -> Seq<Option<MidiEvent>> {
    let m2 = step_model(m, s);
    Seq::new(
        m.cells.len(),
        |i: int|
            if m2.cells[i].pressed != m.cells[i].pressed {
                Some(event_for(m.cells[i].note, m2.cells[i].pressed))
            } else {
                None
            },
    )
}

/// The scanner: owns the row debouncers and the recorded cell table.
pub struct Matrix {
    rows: Vec<Debouncer>,
    cells: Vec<CellState>,
}

impl View for Matrix {
    type V = MatrixModel;

    closed spec fn view(&self) -> MatrixModel {
        MatrixModel { debs: self.rows@, cells: self.cells@ }
    }
}

impl Matrix {
    pub open spec fn wf(&self) -> bool {
        wf_model(self@)
    }

    /// A fresh scanner: chromatic notes from NOTE_BASE upward, nothing
    /// pressed, all debouncers idle low.
    pub fn new() -> (m: Matrix)
        ensures
            m.wf(),
            m@.debs.len() == 8,
            forall|r: int| 0 <= r < 8 ==> m@.debs[r] == (Debouncer { stable: false, count: 0u8 }),
            m@.cells.len() == 64,
            forall|i: int|
                0 <= i < 64 ==> m@.cells[i] == (CellState { note: note_number(i), pressed: false }),
    {
        let mut rows: Vec<Debouncer> = Vec::new();
        let mut r: usize = 0;
        while r < 8
            invariant
                r <= 8,
                rows@.len() == r,
                forall|k: int|
                    0 <= k < r ==> rows@[k] == (Debouncer { stable: false, count: 0u8 }),
            decreases 8 - r,
        {
            rows.push(Debouncer::new());
            r = r + 1;
        }
        let mut cells: Vec<CellState> = Vec::new();
        let mut i: usize = 0;
        while i < 64
            invariant
                i <= 64,
                cells@.len() == i,
                forall|k: int|
                    0 <= k < i ==> cells@[k] == (CellState { note: note_number(k), pressed: false }),
            decreases 64 - i,
        {
            let note: u8 = NOTE_BASE + (i as u8);
            cells.push(CellState { note, pressed: false });
            i = i + 1;
        }
        Matrix { rows, cells }
    }

    /// Advances the debounce state machine of every row by one raw sample.
    /// Must run once per tick before the frame is sampled.
    pub fn update(&mut self, samples: &[bool; 8])
        requires
            old(self).wf(),
        ensures
            final(self)@.debs =~= step_debs(old(self)@.debs, samples@),
            final(self)@.cells == old(self)@.cells,
            final(self).wf(),
    {
        let mut r: usize = 0;
        while r < 8
            invariant
                r <= 8,
                self@.cells == old(self)@.cells,
                self.rows@.len() == 8,
                old(self)@.debs.len() == 8,
                forall|k: int| 0 <= k < 8 ==> (#[trigger] old(self)@.debs[k]).wf(),
                forall|k: int|
                    0 <= k < r ==> self.rows@[k] == step_debouncer(
                        old(self)@.debs[k],
                        samples@[k],
                    ),
                forall|k: int| r <= k < 8 ==> self.rows@[k] == old(self)@.debs[k],
                wf_model(old(self)@),
            decreases 8 - r,
        {
            let mut d = self.rows[r];
            d.feed(samples[r]);
            self.rows[r] = d;
            r = r + 1;
        }
        assert(self@.debs =~= step_debs(old(self)@.debs, samples@));
    }

    /// Samples one column of the current frame: the eight (note, pressed)
    /// pairs of column `col`, top to bottom.
    pub fn state_col(&self, col: usize) -> (r: Vec<(u8, bool)>)
        requires
            self.wf(),
            col < 8,
        ensures
            r@.len() == 8,
            forall|k: int| 0 <= k < 8 ==> r@[k] == frame_of(self@)[col * 8 + k],
    {
        let mut out: Vec<(u8, bool)> = Vec::new();
        let mut k: usize = 0;
        while k < 8
            invariant
                k <= 8,
                out@.len() == k,
                self.wf(),
                col < 8,
                forall|j: int| 0 <= j < k ==> out@[j] == frame_of(self@)[col * 8 + j],
            decreases 8 - k,
        {
            let idx: usize = col * 8 + k;
            out.push((self.cells[idx].note, self.rows[k].stable));
            k = k + 1;
        }
        out
    }

    /// Assembles the full 64-entry frame, column-major.
    pub fn state(&self) -> (frame: Vec<(u8, bool)>)
        requires
            self.wf(),
        ensures
            frame@ =~= frame_of(self@),
    {
        let mut frame: Vec<(u8, bool)> = Vec::new();
        let mut col: usize = 0;
        while col < 8
            invariant
                col <= 8,
                frame@.len() == col * 8,
                self.wf(),
                forall|i: int| 0 <= i < col * 8 ==> frame@[i] == frame_of(self@)[i],
            decreases 8 - col,
        {
            let mut colv = self.state_col(col);
            let mut k: usize = 0;
            while k < 8
                invariant
                    k <= 8,
                    col < 8,
                    colv@.len() == 8,
                    frame@.len() == col * 8 + k,
                    self.wf(),
                    forall|j: int| 0 <= j < 8 ==> colv@[j] == frame_of(self@)[col * 8 + j],
                    forall|i: int| 0 <= i < col * 8 + k ==> frame@[i] == frame_of(self@)[i],
                decreases 8 - k,
            {
                frame.push(colv[k]);
                k = k + 1;
            }
            col = col + 1;
        }
        assert(frame@ =~= frame_of(self@));
        frame
    }

    /// Diffs a fresh frame against the recorded state, records the frame
    /// as the new reference, and returns the changed cells.
    pub fn diff_state(&mut self, frame: &Vec<(u8, bool)>) -> (d: Vec<Option<(u8, bool)>>)
        requires
            old(self).wf(),
            frame@.len() == 64,
            forall|i: int| 0 <= i < 64 ==> frame@[i].0 == old(self)@.cells[i].note,
        ensures
            d@ =~= diff_of(old(self)@.cells, frame@),
            final(self)@.debs == old(self)@.debs,
            final(self)@.cells.len() == 64,
            forall|i: int|
                0 <= i < 64 ==> final(self)@.cells[i] == (CellState {
                    note: old(self)@.cells[i].note,
                    pressed: frame@[i].1,
                }),
            final(self).wf(),
    {
        let mut d: Vec<Option<(u8, bool)>> = Vec::new();
        let mut i: usize = 0;
        while i < 64
            invariant
                i <= 64,
                d@.len() == i,
                self.cells@.len() == 64,
                self@.debs == old(self)@.debs,
                wf_model(old(self)@),
                frame@.len() == 64,
                forall|k: int| 0 <= k < 64 ==> frame@[k].0 == old(self)@.cells[k].note,
                forall|k: int| 0 <= k < i ==> d@[k] == diff_of(old(self)@.cells, frame@)[k],
                forall|k: int|
                    0 <= k < i ==> self.cells@[k] == (CellState {
                        note: old(self)@.cells[k].note,
                        pressed: frame@[k].1,
                    }),
                forall|k: int| i <= k < 64 ==> self.cells@[k] == old(self)@.cells[k],
            decreases 64 - i,
        {
            let (fnote, fpressed) = frame[i];
            let cur = self.cells[i];
            if fnote != cur.note || fpressed != cur.pressed {
                d.push(Some((fnote, fpressed)));
            } else {
                d.push(None);
            }
            self.cells[i] = CellState { note: fnote, pressed: fpressed };
            i = i + 1;
        }
        assert(d@ =~= diff_of(old(self)@.cells, frame@));
        d
    }

    /// One whole tick: debounce with the given samples, scan the frame,
    /// diff and record it, and map each changed cell to its note event.
    /// Slot i of the result belongs to cell i; None means no event.
    pub fn render_notes(&mut self, samples: &[bool; 8]) -> (evs: Vec<Option<MidiEvent>>)
        requires
            old(self).wf(),
        ensures
            final(self)@ =~= step_model(old(self)@, samples@),
            evs@ =~= events_of(old(self)@, samples@),
            final(self).wf(),
    {
        self.update(samples);
        let frame = self.state();
        let d = self.diff_state(&frame);
        let mut evs: Vec<Option<MidiEvent>> = Vec::new();
        let mut i: usize = 0;
        while i < 64
            invariant
                i <= 64,
                evs@.len() == i,
                d@.len() == 64,
                forall|k: int| 0 <= k < i ==> evs@[k] == events_of(old(self)@, samples@)[k],
                forall|k: int|
                    0 <= k < 64 ==> d@[k] == diff_of(old(self)@.cells, frame_of(step_model(old(self)@, samples@)))[k],
                wf_model(old(self)@),
                frame@.len() == 64,
                forall|k: int|
                    0 <= k < 64 ==> frame@[k] == frame_of(step_model(old(self)@, samples@))[k],
            decreases 64 - i,
        {
            let ev: Option<MidiEvent> = match d[i] {
                Some((note, pressed)) => Some(note_event(note, pressed)),
                None => None,
            };
            evs.push(ev);
            i = i + 1;
        }
        assert(evs@ =~= events_of(old(self)@, samples@));
        evs
    }
}

/// A whole sequence of ticks applied to the model, oldest scan first.
pub open spec fn apply_scans(m: MatrixModel, scans: Seq<Seq<bool>>) -> MatrixModel
    decreases scans.len(),
{
    if scans.len() == 0 {
        m
    } else {
        apply_scans(step_model(m, scans.first()), scans.drop_first())
    }
}

/// One tick keeps the model well-formed.
pub proof fn lemma_step_preserves_wf(m: MatrixModel, s: Seq<bool>)
    requires
        wf_model(m),
        s.len() == 8,
    ensures
        wf_model(step_model(m, s)),
{
}

/// The note assigned to each cell is invariant across any sequence of
/// scans: scanning only ever touches the debouncers and the pressed
/// state, never the note table.
pub proof fn lemma_note_identity_invariant(m: MatrixModel, scans: Seq<Seq<bool>>)
    requires
        wf_model(m),
        forall|k: int| 0 <= k < scans.len() ==> (#[trigger] scans[k]).len() == 8,
    ensures
        wf_model(apply_scans(m, scans)),
        apply_scans(m, scans).cells.len() == 64,
        forall|i: int| 0 <= i < 64 ==> apply_scans(m, scans).cells[i].note == m.cells[i].note,
    decreases scans.len(),
{
    if scans.len() > 0 {
        lemma_step_preserves_wf(m, scans.first());
        assert(forall|k: int|
            0 <= k < scans.drop_first().len() ==> (#[trigger] scans.drop_first()[k]).len() == 8);
        lemma_note_identity_invariant(step_model(m, scans.first()), scans.drop_first());
    }
}

/// Scanning twice with no physical change in between yields an empty
/// diff: when every row's raw level equals its debounced level, the
/// second scan emits no event at any cell.
pub proof fn lemma_settled_rescan_empty(m: MatrixModel, s: Seq<bool>)
    requires
        wf_model(m),
        s.len() == 8,
        forall|r: int| 0 <= r < 8 ==> s[r] == (#[trigger] m.debs[r]).stable,
    ensures
        forall|i: int| 0 <= i < 64 ==> events_of(step_model(m, s), s)[i] is None,
{
    let m1 = step_model(m, s);
    assert(forall|r: int| 0 <= r < 8 ==> (#[trigger] m1.debs[r]).stable == m.debs[r].stable);
    let m2 = step_model(m1, s);
    assert(forall|i: int| 0 <= i < 64 ==> (#[trigger] m2.cells[i]).pressed == m1.cells[i].pressed);
}

/// A cell that transitions pressed, then released, then pressed over
/// three ticks emits exactly note-on at full velocity, note-off at
/// velocity zero, and note-on again, always for its own fixed note.
pub proof fn lemma_press_release_press(
    m: MatrixModel,
    s1: Seq<bool>,
    s2: Seq<bool>,
    s3: Seq<bool>,
    i: int,
)
    requires
        wf_model(m),
        s1.len() == 8,
        s2.len() == 8,
        s3.len() == 8,
        0 <= i < 64,
        m.cells[i].pressed == false,
        step_model(m, s1).debs[i % 8].stable == true,
        step_model(step_model(m, s1), s2).debs[i % 8].stable == false,
        step_model(step_model(step_model(m, s1), s2), s3).debs[i % 8].stable == true,
    ensures
        events_of(m, s1)[i] == Some(
            MidiEvent::NoteOn(FIXED_CHANNEL, note_number(i), VELOCITY_ON),
        ),
        events_of(step_model(m, s1), s2)[i] == Some(
            MidiEvent::NoteOff(FIXED_CHANNEL, note_number(i), VELOCITY_OFF),
        ),
        events_of(step_model(step_model(m, s1), s2), s3)[i] == Some(
            MidiEvent::NoteOn(FIXED_CHANNEL, note_number(i), VELOCITY_ON),
        ),
{
    lemma_step_preserves_wf(m, s1);
    lemma_step_preserves_wf(step_model(m, s1), s2);
    let m1 = step_model(m, s1);
    let m2 = step_model(m1, s2);
    let m3 = step_model(m2, s3);
    assert(m1.cells[i].pressed == true);
    assert(m2.cells[i].pressed == false);
    assert(m3.cells[i].pressed == true);
}

/// A tick that leaves a row's debounced level unchanged emits no event at
/// any cell of that row: together with the transition lemma above, a
/// press-release-press cell emits those three events and nothing else.
pub proof fn lemma_no_transition_no_event(m: MatrixModel, s: Seq<bool>, i: int)
    requires
        wf_model(m),
        s.len() == 8,
        0 <= i < 64,
        m.cells[i].pressed == m.debs[i % 8].stable,
        step_model(m, s).debs[i % 8].stable == m.debs[i % 8].stable,
    ensures
        events_of(m, s)[i] is None,
{
    assert(step_model(m, s).cells[i].pressed == m.cells[i].pressed);
}

/// A debouncer advanced by a whole sequence of raw samples.
pub open spec fn apply_samples(d: Debouncer, ss: Seq<bool>) -> Debouncer
    decreases ss.len(),
{
    if ss.len() == 0 {
        d
    } else {
        apply_samples(step_debouncer(d, ss.first()), ss.drop_first())
    }
}

/// Feeding one more sample is one more debounce step.
pub proof fn lemma_apply_samples_snoc(d: Debouncer, ss: Seq<bool>, x: bool)
    ensures
        apply_samples(d, ss.push(x)) == step_debouncer(apply_samples(d, ss), x),
    decreases ss.len(),
{
    if ss.len() == 0 {
        assert(ss.push(x).first() == x);
        assert(ss.push(x).drop_first() =~= Seq::<bool>::empty());
        assert(apply_samples(d, ss.push(x)) == apply_samples(
            step_debouncer(d, x),
            ss.push(x).drop_first(),
        ));
        assert(apply_samples(step_debouncer(d, x), ss.push(x).drop_first()) == step_debouncer(
            d,
            x,
        ));
    } else {
        assert(ss.push(x).first() == ss.first());
        assert(ss.push(x).drop_first() =~= ss.drop_first().push(x));
        lemma_apply_samples_snoc(step_debouncer(d, ss.first()), ss.drop_first(), x);
    }
}

/// n identical raw samples of level v.
pub open spec fn const_run(v: bool, n: int) -> Seq<bool> {
    Seq::new(if n >= 0 { n as nat } else { 0 }, |i: int| v)
}

/// The closed form of a debouncer under a constant sample run: samples at
/// the debounced level only reset the counter, and opposite samples flip
/// the level exactly when they complete the debounce window.
pub proof fn lemma_constant_run(d: Debouncer, v: bool, n: int)
    requires
        d.wf(),
        n >= 0,
    ensures
        v == d.stable && n == 0 ==> apply_samples(d, const_run(v, n)) == d,
        v == d.stable && n > 0 ==> apply_samples(d, const_run(v, n)) == (Debouncer {
            stable: d.stable,
            count: 0u8,
        }),
        v != d.stable && n < DEBOUNCE_WINDOW - d.count ==> apply_samples(d, const_run(v, n)) == (
        Debouncer { stable: d.stable, count: (d.count + n) as u8 }),
        v != d.stable && n >= DEBOUNCE_WINDOW - d.count ==> apply_samples(d, const_run(v, n)) == (
        Debouncer { stable: v, count: 0u8 }),
    decreases n,
{
    if n > 0 {
        assert(const_run(v, n).first() == v);
        assert(const_run(v, n).drop_first() =~= const_run(v, n - 1));
        lemma_constant_run(step_debouncer(d, v), v, n - 1);
    }
}

/// The samples row r sees across a sequence of scans.
pub open spec fn row_track(scans: Seq<Seq<bool>>, r: int) -> Seq<bool> {
    Seq::new(scans.len(), |t: int| scans[t][r])
}

/// Within the debounce window starting at `start`, some sample has level b.
pub open spec fn window_has_level(ss: Seq<bool>, b: bool, start: int) -> bool {
    exists|j: int| start <= j < start + DEBOUNCE_WINDOW && ss[j] == b
}

/// No DEBOUNCE_WINDOW consecutive samples all disagree with level b: every
/// deviation from b is shorter than the debounce window.
pub open spec fn no_long_opposite_run(ss: Seq<bool>, b: bool) -> bool {
    forall|start: int|
        0 <= start && start + DEBOUNCE_WINDOW <= ss.len() ==> #[trigger] window_has_level(
            ss,
            b,
            start,
        )
}

/// A debounced level survives any sample sequence whose deviations are all
/// shorter than the debounce window. The second condition carries the
/// budget of a partially elapsed run: within the samples that could
/// complete it, one must match the level.
pub proof fn lemma_debounce_holds(d: Debouncer, ss: Seq<bool>)
    requires
        d.wf(),
        no_long_opposite_run(ss, d.stable),
        ss.len() >= DEBOUNCE_WINDOW - d.count ==> exists|j: int|
            0 <= j < DEBOUNCE_WINDOW - d.count && ss[j] == d.stable,
    ensures
        apply_samples(d, ss).stable == d.stable,
        apply_samples(d, ss).wf(),
    decreases ss.len(),
{
    let b = d.stable;
    let w = DEBOUNCE_WINDOW as int;
    if ss.len() > 0 {
        let s0 = ss.first();
        let ss1 = ss.drop_first();
        assert(forall|i: int| 0 <= i < ss1.len() ==> ss1[i] == ss[i + 1]);
        assert(no_long_opposite_run(ss1, b)) by {
            assert forall|start: int|
                0 <= start && start + DEBOUNCE_WINDOW <= ss1.len() implies #[trigger] window_has_level(
                ss1,
                b,
                start,
            ) by {
                assert(0 <= start + 1 && start + 1 + DEBOUNCE_WINDOW <= ss.len());
                assert(window_has_level(ss, b, start + 1));
                let j0 = choose|j: int| start + 1 <= j < start + 1 + DEBOUNCE_WINDOW && ss[j] == b;
                assert(ss1[j0 - 1] == b);
                assert(start <= j0 - 1 < start + DEBOUNCE_WINDOW);
            }
        }
        if s0 == b {
            let d1 = step_debouncer(d, s0);
            assert(d1 == (Debouncer { stable: b, count: 0u8 }));
            assert(ss1.len() >= w ==> exists|j: int| 0 <= j < w && ss1[j] == b) by {
                if ss1.len() >= w {
                    assert(0 <= 1 && 1 + DEBOUNCE_WINDOW <= ss.len());
                    assert(window_has_level(ss, b, 1));
                    let j0 = choose|j: int| 1 <= j < 1 + DEBOUNCE_WINDOW && ss[j] == b;
                    assert(ss1[j0 - 1] == b);
                    assert(0 <= j0 - 1 < w);
                }
            }
            lemma_debounce_holds(d1, ss1);
        } else {
            if d.count + 1 >= DEBOUNCE_WINDOW {
                assert(ss.len() >= w - d.count);
                let j0 = choose|j: int| 0 <= j < w - d.count && ss[j] == b;
                assert(j0 == 0);
                assert(false);
            }
            let d1 = step_debouncer(d, s0);
            assert(d1 == (Debouncer { stable: b, count: (d.count + 1) as u8 }));
            assert(ss1.len() >= w - d1.count ==> exists|j: int|
                0 <= j < w - d1.count && ss1[j] == b) by {
                if ss1.len() >= w - d1.count {
                    assert(ss.len() >= w - d.count);
                    let j0 = choose|j: int| 0 <= j < w - d.count && ss[j] == b;
                    assert(j0 != 0);
                    assert(ss1[j0 - 1] == b);
                    assert(0 <= j0 - 1 < w - d1.count);
                }
            }
            lemma_debounce_holds(d1, ss1);
        }
    }
}

/// How a row's debouncer and its cells evolve across scans: the debouncer
/// follows its own sample track, and after at least one scan each cell of
/// the row records the debounced level.
pub proof fn lemma_row_projection(m: MatrixModel, scans: Seq<Seq<bool>>, r: int)
    requires
        wf_model(m),
        0 <= r < 8,
        forall|k: int| 0 <= k < scans.len() ==> (#[trigger] scans[k]).len() == 8,
    ensures
        wf_model(apply_scans(m, scans)),
        apply_scans(m, scans).debs[r] == apply_samples(m.debs[r], row_track(scans, r)),
        forall|i: int|
            0 <= i < 64 && i % 8 == r ==> (#[trigger] apply_scans(m, scans).cells[i]).pressed == (
            if scans.len() == 0 {
                m.cells[i].pressed
            } else {
                apply_scans(m, scans).debs[r].stable
            }),
    decreases scans.len(),
{
    if scans.len() == 0 {
        assert(row_track(scans, r) =~= Seq::<bool>::empty());
    } else {
        let m1 = step_model(m, scans.first());
        lemma_step_preserves_wf(m, scans.first());
        assert(row_track(scans, r).drop_first() =~= row_track(scans.drop_first(), r));
        assert(forall|k: int|
            0 <= k < scans.drop_first().len() ==> (#[trigger] scans.drop_first()[k]).len() == 8);
        lemma_row_projection(m1, scans.drop_first(), r);
        assert(m1.debs[r] == step_debouncer(m.debs[r], row_track(scans, r).first()));
    }
}

/// A pin deviation shorter than the debounce window never shows up in a
/// diff: starting from a settled row whose recorded cells match its
/// debounced level, a sample track without any window-long opposite run
/// emits no event at any cell of that row, at any tick.
pub proof fn lemma_short_transition_never_in_diff(
    m: MatrixModel,
    scans: Seq<Seq<bool>>,
    r: int,
    t: int,
)
    requires
        wf_model(m),
        0 <= r < 8,
        forall|k: int| 0 <= k < scans.len() ==> (#[trigger] scans[k]).len() == 8,
        m.debs[r].count == 0,
        forall|i: int|
            0 <= i < 64 && i % 8 == r ==> (#[trigger] m.cells[i]).pressed == m.debs[r].stable,
        no_long_opposite_run(row_track(scans, r), m.debs[r].stable),
        0 <= t < scans.len(),
    ensures
        forall|i: int|
            0 <= i < 64 && i % 8 == r ==> events_of(apply_scans(m, scans.take(t)), scans[t])[i]
                is None,
{
    let b = m.debs[r].stable;
    let d0 = m.debs[r];
    let track = row_track(scans, r);
    let w = DEBOUNCE_WINDOW as int;
    assert(forall|k: int|
        0 <= k < scans.take(t).len() ==> (#[trigger] scans.take(t)[k]).len() == 8);
    lemma_row_projection(m, scans.take(t), r);
    let mt = apply_scans(m, scans.take(t));
    assert(row_track(scans.take(t), r) =~= track.take(t));
    // the debounced level stays b through every prefix of the track
    assert forall|u: int|
        0 <= u <= t + 1 implies (#[trigger] apply_samples(d0, track.take(u))).stable == b
        && apply_samples(d0, track.take(u)).wf() by {
        assert(no_long_opposite_run(track.take(u), b)) by {
            assert forall|start: int|
                0 <= start && start + DEBOUNCE_WINDOW <= track.take(u).len() implies #[trigger] window_has_level(
                track.take(u),
                b,
                start,
            ) by {
                assert(0 <= start && start + DEBOUNCE_WINDOW <= track.len());
                assert(window_has_level(track, b, start));
                let j0 = choose|j: int|
                    start <= j < start + DEBOUNCE_WINDOW && track[j] == b;
                assert(track.take(u)[j0] == b);
            }
        }
        assert(track.take(u).len() >= w - d0.count ==> exists|j: int|
            0 <= j < w - d0.count && track.take(u)[j] == b) by {
            if track.take(u).len() >= w - d0.count {
                assert(0 <= 0 && 0 + DEBOUNCE_WINDOW <= track.take(u).len());
                assert(no_long_opposite_run(track.take(u), b));
                assert(window_has_level(track.take(u), b, 0));
                let j0 = choose|j: int|
                    0 <= j < 0 + DEBOUNCE_WINDOW && track.take(u)[j] == b;
                assert(0 <= j0 < w - d0.count && track.take(u)[j0] == b);
            }
        }
        lemma_debounce_holds(d0, track.take(u));
    }
    // at tick t the step keeps the level, so no cell of row r changes
    assert(mt.debs[r] == apply_samples(d0, track.take(t)));
    assert(mt.debs[r].stable == b);
    let mt1 = step_model(mt, scans[t]);
    assert(track.take(t).push(track[t]) =~= track.take(t + 1));
    lemma_apply_samples_snoc(d0, track.take(t), track[t]);
    assert(step_debouncer(mt.debs[r], scans[t][r]) == apply_samples(d0, track.take(t + 1)));
    assert(mt1.debs[r].stable == b);
    assert forall|i: int| 0 <= i < 64 && i % 8 == r implies events_of(mt, scans[t])[i] is None by {
        assert(mt1.cells[i].pressed == mt1.debs[r].stable);
        assert(mt.cells[i].pressed == b);
    }
}

/// The note event a changed cell emits.
pub fn note_event(note: u8, pressed: bool) -> (e: MidiEvent)
    ensures
        e == event_for(note, pressed),
{
    if pressed {
        MidiEvent::NoteOn(FIXED_CHANNEL, note, VELOCITY_ON)
    } else {
        MidiEvent::NoteOff(FIXED_CHANNEL, note, VELOCITY_OFF)
    }
}

} // verus!
