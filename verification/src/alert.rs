//! Which failures are worth a message, and how often.

use vstd::prelude::*;

use crate::json;
use crate::json::{Fields, Json, JsonView};
use crate::table::Table;
use crate::text;

verus! {

/// How long a repeated failure stays quiet, in nanoseconds.
pub const REPEAT_AFTER: u64 = 900_000_000_000;

#[derive(Debug, Clone, Copy, PartialEq, Eq, Hash, Structural)]
pub enum Kind {
    SweepFailed,
    CreateFailed,
    PollFailed,
    Abandoned,
}

pub open spec fn kind_name(kind: Kind) -> Seq<char> {
    match kind {
        Kind::SweepFailed => "sweep_failed"@,
        Kind::CreateFailed => "create_failed"@,
        Kind::PollFailed => "poll_failed"@,
        Kind::Abandoned => "abandoned_machine"@,
    }
}

impl Kind {
    pub fn as_str(self) -> (res: &'static str)
        ensures
            res@ == kind_name(self),
    {
        match self {
            Kind::SweepFailed => "sweep_failed",
            Kind::CreateFailed => "create_failed",
            Kind::PollFailed => "poll_failed",
            Kind::Abandoned => "abandoned_machine",
        }
    }
}

/// How often a failure has come in a row, and when it was last told of.
#[derive(Debug, Clone, Copy, PartialEq, Eq, Structural)]
pub struct Streak {
    pub count: u32,
    pub since: u64,
}

/// A failure that was raised.
#[derive(Debug)]
pub struct Raised {
    pub kind: Kind,
    pub subject: String,
    pub detail: String,
    pub count: u32,
    /// How long ago the failure was last told of, in nanoseconds.
    pub elapsed: u64,
    /// Whether to tell of it now.
    pub post: bool,
}

pub struct RaisedView {
    pub kind: Kind,
    pub subject: Seq<char>,
    pub detail: Seq<char>,
    pub count: u32,
    pub elapsed: u64,
    pub post: bool,
}

impl View for Raised {
    type V = RaisedView;

    open spec fn view(&self) -> RaisedView {
        RaisedView {
            kind: self.kind,
            subject: self.subject@,
            detail: self.detail@,
            count: self.count,
            elapsed: self.elapsed,
            post: self.post,
        }
    }
}

/// The streaks of failures, by kind and subject.
pub struct Alerts {
    streaks: Table<Streak>,
}

/// What a streak is filed under.
pub open spec fn streak_key(kind: Kind, subject: Seq<char>) -> Seq<char> {
    kind_name(kind) + " "@ + subject
}

impl View for Alerts {
    type V = Map<Seq<char>, Streak>;

    closed spec fn view(&self) -> Map<Seq<char>, Streak> {
        self.streaks@
    }
}

/// The time from one reading of the clock to another, or none if it went back.
pub open spec fn since(from: u64, to: u64) -> u64 {
    if to < from {
        0
    } else {
        (to - from) as u64
    }
}

/// The streak after one more failure, and what it comes to.
pub open spec fn raised(
    streaks: Map<Seq<char>, Streak>,
    kind: Kind,
    subject: Seq<char>,
    detail: Seq<char>,
    now: u64,
) -> (Map<Seq<char>, Streak>, RaisedView) {
    let key = streak_key(kind, subject);
    let (count, first) = if streaks.contains_key(key) {
        let known = streaks[key];
        (
            if known.count < u32::MAX {
                (known.count + 1) as u32
            } else {
                u32::MAX
            },
            known.since,
        )
    } else {
        (1u32, now)
    };
    let elapsed = since(first, now);
    let post = count == 1 || elapsed >= REPEAT_AFTER;
    let kept = if post {
        now
    } else {
        first
    };
    (
        streaks.insert(key, Streak { count, since: kept }),
        RaisedView { kind, subject, detail, count, elapsed, post },
    )
}

pub fn elapsed(from: u64, to: u64) -> (res: u64)
    ensures
        res == since(from, to),
{
    if to < from {
        0
    } else {
        to - from
    }
}

fn key_of(kind: Kind, subject: &str) -> (res: String)
    ensures
        res@ == streak_key(kind, subject@),
{
    kind.as_str().to_owned().concat(" ").concat(subject)
}

impl Alerts {
    pub fn new() -> (res: Alerts)
        ensures
            res@ == Map::<Seq<char>, Streak>::empty(),
    {
        Alerts { streaks: Table::new() }
    }

    /// Counts a failure, and says whether it is to be told of.
    pub fn raise(&mut self, kind: Kind, subject: &str, detail: &str, now: u64) -> (res: Raised)
        ensures
            (final(self)@, res@) == raised(old(self)@, kind, subject@, detail@, now),
    {
        let key = key_of(kind, subject);
        let (count, first): (u32, u64) = match self.streaks.get(key.as_str()) {
            Some(known) => (
                if known.count < u32::MAX {
                    known.count + 1
                } else {
                    u32::MAX
                },
                known.since,
            ),
            None => (1, now),
        };
        let elapsed: u64 = elapsed(first, now);
        let post = count == 1 || elapsed >= REPEAT_AFTER;
        let kept: u64 = if post {
            now
        } else {
            first
        };
        self.streaks.insert(key, Streak { count, since: kept });
        Raised {
            kind,
            subject: subject.to_owned(),
            detail: detail.to_owned(),
            count,
            elapsed,
            post,
        }
    }

    /// Ends a streak.
    pub fn clear(&mut self, kind: Kind, subject: &str)
        ensures
            final(self)@ == old(self)@.remove(streak_key(kind, subject@)),
    {
        let key = key_of(kind, subject);
        self.streaks.remove(key.as_str());
    }

    /// The length of a streak.
    pub fn count(&self, kind: Kind, subject: &str) -> (res: u32)
        ensures
            res == if self@.contains_key(streak_key(kind, subject@)) {
                self@[streak_key(kind, subject@)].count
            } else {
                0
            },
    {
        match self.streaks.get(key_of(kind, subject).as_str()) {
            Some(known) => known.count,
            None => 0,
        }
    }

    /// Whether nothing is failing.
    pub fn is_empty(&self) -> (res: bool)
        ensures
            res == (self@ == Map::<Seq<char>, Streak>::empty()),
    {
        self.streaks.is_empty()
    }
}

/// The document a failure is told of with.
pub open spec fn post_body(raised: RaisedView) -> JsonView {
    JsonView::Object(
        Seq::empty().push(("kind"@, JsonView::Text(kind_name(raised.kind)))).push(
            ("subject"@, JsonView::Text(raised.subject)),
        ).push(("detail"@, JsonView::Text(raised.detail))).push(
            ("consecutive"@, JsonView::Number(raised.count as int)),
        ),
    )
}

pub fn post(raised: &Raised) -> (res: Json)
    ensures
        res@ == post_body(raised@),
{
    Fields::new().with("kind", Json::text(raised.kind.as_str())).with(
        "subject",
        Json::text(raised.subject.as_str()),
    ).with("detail", Json::text(raised.detail.as_str())).with(
        "consecutive",
        Json::unsigned(raised.count as u64),
    ).object()
}

/// No two failures share a streak.
pub proof fn law_streaks_are_apart(a: Kind, x: Seq<char>, b: Kind, y: Seq<char>)
    requires
        streak_key(a, x) == streak_key(b, y),
    ensures
        a == b,
        x == y,
{
    reveal_strlit("sweep_failed");
    reveal_strlit("create_failed");
    reveal_strlit("poll_failed");
    reveal_strlit("abandoned_machine");
    assert(streak_key(a, x)[0] == kind_name(a)[0]);
    assert(streak_key(b, y)[0] == kind_name(b)[0]);
    let head = (kind_name(a) + " "@).len() as int;
    assert(x =~= streak_key(a, x).skip(head));
    assert(y =~= streak_key(b, y).skip(head));
}

/// The first failure of a streak is told of at once; a later one only when the
/// last telling is long enough ago. A cleared streak starts anew.
pub proof fn law_first_failure_is_told(
    streaks: Map<Seq<char>, Streak>,
    kind: Kind,
    subject: Seq<char>,
    detail: Seq<char>,
    now: u64,
    later: u64,
)
    requires
        !streaks.contains_key(streak_key(kind, subject)),
        now <= later,
    ensures
        ({
            let (once, first) = raised(streaks, kind, subject, detail, now);
            let (_, second) = raised(once, kind, subject, detail, later);
            &&& first.count == 1
            &&& first.post
            &&& second.count == 2
            &&& second.post <==> later - now >= REPEAT_AFTER
        }),
{
}

/// A failure of one subject leaves every other streak as it is.
pub proof fn law_streaks_are_kept_per_subject(
    streaks: Map<Seq<char>, Streak>,
    kind: Kind,
    subject: Seq<char>,
    detail: Seq<char>,
    now: u64,
    other_kind: Kind,
    other: Seq<char>,
)
    requires
        other_kind != kind || other != subject,
    ensures
        ({
            let after = raised(streaks, kind, subject, detail, now).0;
            let key = streak_key(other_kind, other);
            &&& after.contains_key(key) <==> streaks.contains_key(key)
            &&& streaks.contains_key(key) ==> after[key] == streaks[key]
        }),
{
    if streak_key(kind, subject) == streak_key(other_kind, other) {
        law_streaks_are_apart(kind, subject, other_kind, other);
    }
}

/// The name that a failure of this kind goes by.
pub open spec fn goes_by(kind: Kind, name: Seq<char>) -> bool {
    match kind {
        Kind::SweepFailed => name == "sweep_failed"@,
        Kind::CreateFailed => name == "create_failed"@,
        Kind::PollFailed => name == "poll_failed"@,
        Kind::Abandoned => name == "abandoned_machine"@,
    }
}

/// A failure lengthens its streak by one and is told of when it is the first, or when
/// fifteen minutes have passed since it was last told of; the time of a telling is
/// noted. Every other streak stays as it was.
pub proof fn law_a_failure_is_counted_and_told_in_time(
    alerts: &mut Alerts,
    kind: Kind,
    name: Seq<char>,
    subject: &str,
    detail: &str,
    now: u64,
    res: Raised,
)
    requires
        goes_by(kind, name),
        call_ensures(Alerts::raise, (alerts, kind, subject, detail, now), res),
    ensures
        ({
            let key = name + " "@ + subject@;
            let before = old(alerts)@;
            let after = final(alerts)@;
            &&& res.kind == kind
            &&& res.subject@ == subject@
            &&& res.detail@ == detail@
            &&& after.contains_key(key)
            &&& after[key].count == res.count
            &&& after[key].since == (if res.post {
                now
            } else {
                before[key].since
            })
            &&& !before.contains_key(key) ==> res.count == 1 && res.post && res.elapsed == 0
            &&& before.contains_key(key) && before[key].count < u32::MAX ==> res.count
                == before[key].count + 1
            &&& before.contains_key(key) && before[key].count > 0 && before[key].since <= now
                ==> {
                &&& res.elapsed == now - before[key].since
                &&& res.post <==> now - before[key].since >= 15 * 60 * 1_000_000_000
            }
            &&& before.contains_key(key) && before[key].count > 0 && now < before[key].since
                ==> res.elapsed == 0 && !res.post
            &&& before.contains_key(key) && before[key].count == u32::MAX ==> res.count
                == u32::MAX
            &&& forall|other: Seq<char>|
                other != key ==> (#[trigger] after.contains_key(other) <==> before.contains_key(
                    other,
                )) && (before.contains_key(other) ==> after[other] == before[other])
        }),
{
}

/// A failure that is over leaves no streak, and every other streak stays as it was.
pub proof fn law_a_streak_ends(
    alerts: &mut Alerts,
    kind: Kind,
    name: Seq<char>,
    subject: &str,
)
    requires
        goes_by(kind, name),
        call_ensures(Alerts::clear, (alerts, kind, subject), ()),
    ensures
        ({
            let key = name + " "@ + subject@;
            let before = old(alerts)@;
            let after = final(alerts)@;
            &&& !after.contains_key(key)
            &&& forall|other: Seq<char>|
                other != key ==> (#[trigger] after.contains_key(other) <==> before.contains_key(
                    other,
                )) && (before.contains_key(other) ==> after[other] == before[other])
        }),
{
}

/// What is told of a failure names its kind, its subject and its detail, each once, and
/// how often it has come in a row.
pub proof fn law_a_message_says_what_failed(raised: &Raised, name: Seq<char>, res: Json)
    requires
        goes_by(raised.kind, name),
        call_ensures(post, (raised,), res),
    ensures
        json::has_field(res@, "kind"@, JsonView::Text(name)),
        json::has_field(res@, "subject"@, JsonView::Text(raised.subject@)),
        json::has_field(res@, "detail"@, JsonView::Text(raised.detail@)),
        json::has_field(res@, "consecutive"@, JsonView::Number(raised.count as int)),
        res@ matches JsonView::Object(fields) && fields.len() == 4,
{
    let fields = res@->Object_0;
    reveal_strlit("kind");
    reveal_strlit("subject");
    reveal_strlit("detail");
    reveal_strlit("consecutive");
    assert(fields[0].0 == "kind"@);
    assert(fields[1].0 == "subject"@);
    assert(fields[2].0 == "detail"@);
    assert(fields[3].0 == "consecutive"@);
    assert(fields.len() == 4);
    assert forall|i: int, j: int| 0 <= i < j < fields.len() implies (#[trigger] fields[i]).0 != (
    #[trigger] fields[j]).0 by {
        assert(fields[i].0.len() != fields[j].0.len());
    }
    json::lemma_fields(fields);
}

} // verus!
