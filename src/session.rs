use vstd::prelude::*;
use crate::geometry::{distance, distance_spec, half, Position};
use crate::registry::{first_near, lemma_first_near, Point, PointRegistry};
use crate::text::{
    connection_line, connection_line_spec, distance_label, label_spec, point_line, point_line_spec,
};

verus! {

/// A finished line: from the start point's position to where the
/// completing click landed, and its length in hundredths of a pixel.
#[derive(Clone, Copy, Debug, PartialEq, Eq, Structural)]
pub struct Line {
    pub start: Position,
    pub end: Position,
    pub distance: u64,
}

/// One line to append to one of the two logs.
#[derive(Clone, Copy, Debug, PartialEq, Eq, Structural)]
pub enum LogEntry {
    /// A new point, for the points log.
    Point(u64),
    /// A new connection, for the connections log.
    Connection { start_id: u64, end_id: u64, distance: u64 },
}

/// The text of a log entry, newline included.
pub open spec fn entry_text(e: LogEntry) -> Seq<u8> {
    match e {
        LogEntry::Point(id) => point_line_spec(id as nat),
        LogEntry::Connection { start_id, end_id, distance } => connection_line_spec(
            start_id as nat,
            end_id as nat,
            distance as nat,
        ),
    }
}

impl LogEntry {
    /// Whether the entry belongs to the points log (else to the
    /// connections log).
    pub fn is_point(&self) -> (r: bool)
        ensures
            r == (*self is Point),
    {
        match self {
            LogEntry::Point(_) => true,
            LogEntry::Connection { .. } => false,
        }
    }

    /// The text to append to the entry's log.
    pub fn text(&self) -> (r: Vec<u8>)
        ensures
            r@ == entry_text(*self),
    {
        match self {
            LogEntry::Point(id) => point_line(*id),
            LogEntry::Connection { start_id, end_id, distance } => connection_line(
                *start_id,
                *end_id,
                *distance,
            ),
        }
    }
}

/// An input event of the session.
#[derive(Clone, Copy, Debug, PartialEq, Eq, Structural)]
pub enum Event {
    CursorMoved(Position),
    Clicked,
    FrameTick,
    Closed,
}

/// What a session is: the placed points, the finished lines, the index of
/// the pending start point, the last known cursor position, and the
/// proximity threshold.
#[verifier::ext_equal]
pub struct SessionModel {
    pub points: Seq<Point>,
    pub lines: Seq<Line>,
    pub pending: Option<int>,
    pub cursor: Option<Position>,
    pub threshold: u32,
}

/// A session before any event.
pub open spec fn fresh(threshold: u32) -> SessionModel {
    SessionModel {
        points: Seq::empty(),
        lines: Seq::empty(),
        pending: None,
        cursor: None,
        threshold,
    }
}

/// `m` with a point at `c` added under the next id.
pub open spec fn with_point(m: SessionModel, c: Position) -> SessionModel {
    SessionModel {
        points: m.points.push(Point { id: (m.points.len() + 1) as u64, position: c }),
        ..m
    }
}

/// A left click: ignored before the cursor is known; from no pending start
/// it picks (or creates) the start point; from a pending start it picks
/// (or creates) the end point, records the connection, and ends the line.
/// The distance is measured from the start point to the cursor itself.
pub open spec fn click_step(m: SessionModel) -> (SessionModel, Seq<LogEntry>) {
    match m.cursor {
        None => (m, Seq::empty()),
        Some(c) => {
            let n = m.points.len() as int;
            let near = first_near(m.points, c, m.threshold);
            match m.pending {
                None => match near {
                    Some(i) => (SessionModel { pending: Some(i), ..m }, Seq::empty()),
                    None => (
                        SessionModel { pending: Some(n), ..with_point(m, c) },
                        seq![LogEntry::Point((n + 1) as u64)],
                    ),
                },
                Some(s) => {
                    let start = m.points[s];
                    let d = distance_spec(start.position, c) as u64;
                    let line = Line { start: start.position, end: c, distance: d };
                    match near {
                        Some(i) => (
                            SessionModel { lines: m.lines.push(line), pending: None, ..m },
                            seq![
                                LogEntry::Connection {
                                    start_id: start.id,
                                    end_id: m.points[i].id,
                                    distance: d,
                                },
                            ],
                        ),
                        None => (
                            SessionModel {
                                lines: m.lines.push(line),
                                pending: None,
                                ..with_point(m, c)
                            },
                            seq![
                                LogEntry::Point((n + 1) as u64),
                                LogEntry::Connection {
                                    start_id: start.id,
                                    end_id: (n + 1) as u64,
                                    distance: d,
                                },
                            ],
                        ),
                    }
                },
            }
        },
    }
}

/// The session driven by one event, and the log entries that it writes.
pub open spec fn step(m: SessionModel, e: Event) -> (SessionModel, Seq<LogEntry>) {
    match e {
        Event::CursorMoved(p) => (SessionModel { cursor: Some(p), ..m }, Seq::empty()),
        Event::Clicked => click_step(m),
        Event::FrameTick => (m, Seq::empty()),
        Event::Closed => (m, Seq::empty()),
    }
}

/// The default proximity threshold: 30 pixels, in hundredths of a pixel.
pub const POINT_THRESHOLD: u32 = 3000;

/// How far above a segment's midpoint its label is drawn, in hundredths
/// of a pixel.
pub const LABEL_RAISE: i64 = 1000;

/// A segment to draw, with its length: a finished line, or the preview
/// from the pending start point to the cursor.
#[derive(Clone, Copy, Debug, PartialEq, Eq, Structural)]
pub struct Stroke {
    pub start: Position,
    pub end: Position,
    pub distance: u64,
    pub preview: bool,
}

impl Stroke {
    /// The label drawn beside the segment.
    pub fn label(&self) -> (r: Vec<u8>)
        ensures
            r@ == label_spec(self.distance as nat),
    {
        distance_label(self.distance)
    }

    /// Where the label goes: above the segment's midpoint.
    pub fn label_anchor(&self) -> (r: (i64, i64))
        ensures
            r.0 == half(self.start.x + self.end.x),
            r.1 == half(self.start.y + self.end.y) - LABEL_RAISE,
    {
        let mid = self.start.midpoint(&self.end);
        (mid.x as i64, mid.y as i64 - LABEL_RAISE)
    }
}

/// The stroke of a finished line.
pub open spec fn line_stroke(l: Line) -> Stroke {
    Stroke { start: l.start, end: l.end, distance: l.distance, preview: false }
}

/// What a frame shows over the image: every finished line in order, then
/// the preview while a start point is pending and the cursor is known.
pub open spec fn scene_spec(m: SessionModel) -> Seq<Stroke> {
    let fixed = m.lines.map_values(|l: Line| line_stroke(l));
    match (m.pending, m.cursor) {
        (Some(s), Some(c)) => fixed.push(
            Stroke {
                start: m.points[s].position,
                end: c,
                distance: distance_spec(m.points[s].position, c) as u64,
                preview: true,
            },
        ),
        _ => fixed,
    }
}

/// The two log files after the entries of `log` are appended to `points`
/// and `connections`.
pub open spec fn append_entries(points: Seq<u8>, connections: Seq<u8>, log: Seq<LogEntry>) -> (
    Seq<u8>,
    Seq<u8>,
)
    decreases log.len(),
{
    if log.len() == 0 {
        (points, connections)
    } else {
        let (p, c) = append_entries(points, connections, log.drop_last());
        match log.last() {
            LogEntry::Point(_) => (p + entry_text(log.last()), c),
            LogEntry::Connection { .. } => (p, c + entry_text(log.last())),
        }
    }
}

/// A fresh session that receives, for each position of `clicks`, a cursor
/// move there and a click: the session, and the contents of the points log
/// and of the connections log.
pub open spec fn replay_spec(threshold: u32, clicks: Seq<Position>) -> (
    SessionModel,
    Seq<u8>,
    Seq<u8>,
)
    decreases clicks.len(),
{
    if clicks.len() == 0 {
        (fresh(threshold), Seq::empty(), Seq::empty())
    } else {
        let (m, p, c) = replay_spec(threshold, clicks.drop_last());
        let (m2, log) = click_step(SessionModel { cursor: Some(clicks.last()), ..m });
        let (p2, c2) = append_entries(p, c, log);
        (m2, p2, c2)
    }
}

/// Only clicks write to the logs, and each entry written stands for what
/// the click recorded: a point entry for the point just created, under its
/// id, and a connection entry for the line just finished, with its length.
/// Cursor moves and frames, and with them the preview, write nothing.
pub proof fn lemma_only_records_are_logged(m: SessionModel, e: Event)
    ensures
        !(e is Clicked) ==> step(m, e).1.len() == 0,
        ({
            let (m2, log) = step(m, e);
            forall|k: int|
                0 <= k < log.len() ==> match #[trigger] log[k] {
                    LogEntry::Point(id) => m2.points.len() == m.points.len() + 1
                        && m2.points.last().id == id && m2.points.drop_last() == m.points,
                    LogEntry::Connection { start_id, end_id, distance } => m2.lines.len()
                        == m.lines.len() + 1 && m2.lines.drop_last() == m.lines
                        && m2.lines.last().distance == distance,
                }
        }),
{
    let (m2, log) = step(m, e);
    if e is Clicked && m.cursor is Some {
        assert(m.points.push(m2.points.last()).drop_last() =~= m.points);
        assert(m.lines.push(m2.lines.last()).drop_last() =~= m.lines);
    }
}

/// Replaying the same clicks from a fresh session, with the same
/// threshold, gives the same two logs byte for byte.
pub proof fn lemma_replay_idempotent(threshold: u32, a: Seq<Position>, b: Seq<Position>)
    requires
        a =~= b,
    ensures
        replay_spec(threshold, a).1 == replay_spec(threshold, b).1,
        replay_spec(threshold, a).2 == replay_spec(threshold, b).2,
{
}

/// `a` is the beginning of `b`.
pub open spec fn starts(a: Seq<u8>, b: Seq<u8>) -> bool {
    a.len() <= b.len() && b.subrange(0, a.len() as int) =~= a
}

/// Appending entries only extends the two logs.
pub proof fn lemma_append_entries_extends(points: Seq<u8>, connections: Seq<u8>, log: Seq<LogEntry>)
    ensures
        starts(points, append_entries(points, connections, log).0),
        starts(connections, append_entries(points, connections, log).1),
    decreases log.len(),
{
    if log.len() > 0 {
        lemma_append_entries_extends(points, connections, log.drop_last());
        let (p, c) = append_entries(points, connections, log.drop_last());
        let t = entry_text(log.last());
        assert((p + t).subrange(0, points.len() as int) =~= p.subrange(0, points.len() as int));
        assert((c + t).subrange(0, connections.len() as int) =~= c.subrange(
            0,
            connections.len() as int,
        ));
    }
}

/// The logs are append-only: after more clicks, each log begins with what
/// it held before them.
pub proof fn lemma_logs_append_only(threshold: u32, a: Seq<Position>, b: Seq<Position>)
    ensures
        starts(replay_spec(threshold, a).1, replay_spec(threshold, a + b).1),
        starts(replay_spec(threshold, a).2, replay_spec(threshold, a + b).2),
    decreases b.len(),
{
    if b.len() == 0 {
        assert(a + b =~= a);
    } else {
        lemma_logs_append_only(threshold, a, b.drop_last());
        assert((a + b).drop_last() =~= a + b.drop_last());
        let (m, p, c) = replay_spec(threshold, a + b.drop_last());
        let (m2, log) = click_step(SessionModel { cursor: Some(b.last()), ..m });
        lemma_append_entries_extends(p, c, log);
        let (p2, c2) = append_entries(p, c, log);
        let (p0, c0) = (replay_spec(threshold, a).1, replay_spec(threshold, a).2);
        assert(p2.subrange(0, p0.len() as int) =~= p2.subrange(0, p.len() as int).subrange(
            0,
            p0.len() as int,
        ));
        assert(c2.subrange(0, c0.len() as int) =~= c2.subrange(0, c.len() as int).subrange(
            0,
            c0.len() as int,
        ));
    }
}

/// The interaction state of the photo-measuring tool.
pub struct Session {
    registry: PointRegistry,
    lines: Vec<Line>,
    pending: Option<usize>,
    cursor: Option<Position>,
}

impl Session {
    pub closed spec fn view(&self) -> SessionModel {
        SessionModel {
            points: self.registry@,
            lines: self.lines@,
            pending: match self.pending {
                Some(i) => Some(i as int),
                None => None,
            },
            cursor: self.cursor,
            threshold: self.registry.threshold_spec(),
        }
    }

    /// The registry is well formed and the pending index names a point.
    pub closed spec fn wf(&self) -> bool {
        &&& self.registry.wf()
        &&& match self.pending {
            Some(i) => i < self.registry@.len(),
            None => true,
        }
    }

    /// A fresh session with the given proximity threshold, in hundredths
    /// of a pixel.
    pub fn new(threshold: u32) -> (r: Session)
        ensures
            r.wf(),
            r@ == fresh(threshold),
    {
        Session {
            registry: PointRegistry::new(threshold),
            lines: Vec::new(),
            pending: None,
            cursor: None,
        }
    }

    /// Records where the cursor now is.
    pub fn cursor_moved(&mut self, position: &Position)
        requires
            old(self).wf(),
        ensures
            final(self).wf(),
            final(self)@ == (SessionModel { cursor: Some(*position), ..old(self)@ }),
    {
        self.cursor = Some(*position);
    }

    /// Handles a left click at the last known cursor position, and returns
    /// the log entries to append, in order.
    pub fn click(&mut self) -> (r: Vec<LogEntry>)
        requires
            old(self).wf(),
            old(self)@.points.len() < u64::MAX,
        ensures
            final(self).wf(),
            (final(self)@, r@) == click_step(old(self)@),
    {
        let c = match self.cursor {
            None => {
                return Vec::new();
            },
            Some(c) => c,
        };
        let n = self.registry.len();
        let near = self.registry.find_near(&c);
        proof {
            lemma_first_near(self@.points, c, self@.threshold);
        }
        let mut out: Vec<LogEntry> = Vec::new();
        match self.pending {
            None => {
                match near {
                    Some(i) => {
                        self.pending = Some(i);
                    },
                    None => {
                        let id = self.registry.insert(&c);
                        out.push(LogEntry::Point(id));
                        self.pending = Some(n);
                        assert(self@.points =~= with_point(old(self)@, c).points);
                    },
                }
            },
            Some(s) => {
                let start = self.registry.get(s);
                let d = distance(&start.position, &c);
                let end_id = match near {
                    Some(i) => self.registry.get(i).id,
                    None => {
                        let id = self.registry.insert(&c);
                        out.push(LogEntry::Point(id));
                        id
                    },
                };
                out.push(LogEntry::Connection { start_id: start.id, end_id, distance: d });
                self.lines.push(Line { start: start.position, end: c, distance: d });
                self.pending = None;
                assert(near is None ==> self@.points =~= with_point(old(self)@, c).points);
            },
        }
        assert(self@ =~= click_step(old(self)@).0);
        assert(out@ =~= click_step(old(self)@).1);
        out
    }

    /// Handles one event, and returns the log entries to append, in order.
    pub fn handle(&mut self, event: &Event) -> (r: Vec<LogEntry>)
        requires
            old(self).wf(),
            old(self)@.points.len() < u64::MAX,
        ensures
            final(self).wf(),
            (final(self)@, r@) == step(old(self)@, *event),
    {
        match event {
            Event::CursorMoved(p) => {
                self.cursor_moved(p);
                Vec::new()
            },
            Event::Clicked => self.click(),
            Event::FrameTick => Vec::new(),
            Event::Closed => Vec::new(),
        }
    }

    /// What to draw over the image this frame.
    pub fn scene(&self) -> (r: Vec<Stroke>)
        requires
            self.wf(),
        ensures
            r@ == scene_spec(self@),
    {
        let mut out: Vec<Stroke> = Vec::new();
        let mut i: usize = 0;
        while i < self.lines.len()
            invariant
                i <= self.lines@.len(),
                out@ =~= self.lines@.take(i as int).map_values(|l: Line| line_stroke(l)),
            decreases self.lines@.len() - i,
        {
            let l = self.lines[i];
            out.push(Stroke { start: l.start, end: l.end, distance: l.distance, preview: false });
            assert(self.lines@.take(i as int + 1) =~= self.lines@.take(i as int).push(l));
            i = i + 1;
        }
        assert(self.lines@.take(i as int) =~= self.lines@);
        if let (Some(s), Some(c)) = (self.pending, self.cursor) {
            let start = self.registry.get(s);
            let d = distance(&start.position, &c);
            out.push(Stroke { start: start.position, end: c, distance: d, preview: true });
        }
        out
    }

    /// The number of placed points.
    pub fn point_count(&self) -> (r: usize)
        ensures
            r == self@.points.len(),
    {
        self.registry.len()
    }
}

/// Appends the text of each entry of `log` to the log it belongs to.
fn write_entries(points: &mut Vec<u8>, connections: &mut Vec<u8>, log: &Vec<LogEntry>)
    ensures
        (final(points)@, final(connections)@) == append_entries(
            old(points)@,
            old(connections)@,
            log@,
        ),
{
    let mut i: usize = 0;
    while i < log.len()
        invariant
            i <= log@.len(),
            (points@, connections@) == append_entries(
                old(points)@,
                old(connections)@,
                log@.take(i as int),
            ),
        decreases log@.len() - i,
    {
        assert(log@.take(i as int + 1).drop_last() =~= log@.take(i as int));
        let mut t = log[i].text();
        if log[i].is_point() {
            points.append(&mut t);
        } else {
            connections.append(&mut t);
        }
        i = i + 1;
    }
    assert(log@.take(i as int) =~= log@);
}

/// The contents of the points log and of the connections log after a fresh
/// session with the given threshold receives, for each position of
/// `clicks`, a cursor move there and a click. They depend on the threshold
/// and the clicks alone.
pub fn replay(threshold: u32, clicks: &Vec<Position>) -> (r: (Vec<u8>, Vec<u8>))
    requires
        clicks@.len() < u64::MAX,
    ensures
        r.0@ == replay_spec(threshold, clicks@).1,
        r.1@ == replay_spec(threshold, clicks@).2,
{
    let mut session = Session::new(threshold);
    let mut points: Vec<u8> = Vec::new();
    let mut connections: Vec<u8> = Vec::new();
    let mut i: usize = 0;
    while i < clicks.len()
        invariant
            i <= clicks@.len() < u64::MAX,
            session.wf(),
            session@.points.len() <= i,
            (session@, points@, connections@) == replay_spec(threshold, clicks@.take(i as int)),
        decreases clicks@.len() - i,
    {
        assert(clicks@.take(i as int + 1).drop_last() =~= clicks@.take(i as int));
        session.cursor_moved(&clicks[i]);
        let log = session.click();
        write_entries(&mut points, &mut connections, &log);
        i = i + 1;
    }
    assert(clicks@.take(i as int) =~= clicks@);
    (points, connections)
}

} // verus!
