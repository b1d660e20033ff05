//! Going through the pages of a provider's listing.

use vstd::prelude::*;

use super::{Found, Machine, MachineView};
use crate::text;

verus! {

/// A walk through listings that come in pages, location by location.
pub struct Walk {
    /// What the name of a machine of ours starts with.
    pub prefix: String,
    /// The locations that are still to be read, from the one at hand on.
    pub locations: Vec<String>,
    /// Whether an id has to say which location it is of.
    pub located: bool,
    /// The page that is to be read next.
    pub page: u32,
    /// What was found so far.
    pub machines: Vec<Machine>,
}

pub struct WalkView {
    pub prefix: Seq<char>,
    pub locations: Seq<Seq<char>>,
    pub located: bool,
    pub page: u32,
    pub machines: Seq<MachineView>,
}

impl View for Walk {
    type V = WalkView;

    open spec fn view(&self) -> WalkView {
        WalkView {
            prefix: self.prefix@,
            locations: text::texts(self.locations@),
            located: self.located,
            page: self.page,
            machines: super::machine_views(self.machines@),
        }
    }
}

impl WalkView {
    /// The location that goes into an id, where one does.
    pub open spec fn mark(self) -> Option<Seq<char>> {
        if self.located {
            Some(self.locations[0])
        } else {
            None
        }
    }

    /// The walk after a page: on to the page that follows, or to the next location.
    pub open spec fn after(self, found: Seq<Found>, next: Option<u32>) -> WalkView {
        WalkView {
            locations: if next is Some {
                self.locations
            } else {
                self.locations.drop_first()
            },
            page: match next {
                Some(page) => page,
                None => 1,
            },
            machines: self.machines + super::ours(found, self.prefix, self.mark(), found.len()),
            ..self
        }
    }
}

impl Walk {
    /// A walk that starts at the first page of the first location.
    pub fn new(prefix: &str, locations: &[String]) -> (res: Walk)
        ensures
            res@ == (WalkView {
                prefix: prefix@,
                locations: text::texts(locations@),
                located: true,
                page: 1,
                machines: Seq::empty(),
            }),
    {
        let res = Walk {
            prefix: prefix.to_owned(),
            locations: text::copied(locations),
            located: true,
            page: 1,
            machines: Vec::new(),
        };
        proof {
            assert(super::machine_views(res.machines@) =~= Seq::<MachineView>::empty());
        }
        res
    }

    /// A walk through a listing that knows no locations.
    pub fn single(prefix: &str) -> (res: Walk)
        ensures
            res@ == (WalkView {
                prefix: prefix@,
                locations: seq![""@],
                located: false,
                page: 1,
                machines: Seq::empty(),
            }),
    {
        let mut locations: Vec<String> = Vec::new();
        locations.push("".to_owned());
        let res = Walk {
            prefix: prefix.to_owned(),
            locations,
            located: false,
            page: 1,
            machines: Vec::new(),
        };
        proof {
            assert(super::machine_views(res.machines@) =~= Seq::<MachineView>::empty());
            assert(text::texts(res.locations@) =~= seq![""@]);
        }
        res
    }

    /// The location to read a page of, if there is anything left to read.
    pub fn here(&self) -> (res: Option<&str>)
        ensures
            match res {
                Some(location) => self@.locations.len() > 0 && location@ == self@.locations[0],
                None => self@.locations.len() == 0,
            },
    {
        if self.locations.len() == 0 {
            None
        } else {
            Some(self.locations[0].as_str())
        }
    }

    /// Takes in a page, with the page that follows it in the same location, if one does.
    pub fn turn(&mut self, found: &[Found], next: Option<u32>)
        requires
            old(self)@.locations.len() > 0,
        ensures
            final(self)@ == old(self)@.after(found@, next),
    {
        let ghost before = self@;
        let mark: Option<&str> = if self.located {
            Some(self.locations[0].as_str())
        } else {
            None
        };
        let mut more = super::keep_ours(found, self.prefix.as_str(), mark);
        let ghost added = more@;
        let ghost known = self.machines@;
        self.machines.append(&mut more);
        match next {
            Some(page) => {
                self.page = page;
            },
            None => {
                self.page = 1;
                self.locations.remove(0);
            },
        }
        proof {
            assert(super::machine_views(self.machines@) =~= super::machine_views(known)
                + super::machine_views(added));
            if next is None {
                assert(text::texts(self.locations@) =~= before.locations.drop_first());
            }
        }
    }
}

proof fn lemma_ours(
    found: Seq<Found>,
    prefix: Seq<char>,
    location: Option<Seq<char>>,
    n: nat,
)
    ensures
        forall|i: int|
            0 <= i < super::ours(found, prefix, location, n).len() ==> prefix.is_prefix_of(
                (#[trigger] super::ours(found, prefix, location, n)[i]).name,
            ),
    decreases n,
{
    if n > 0 {
        lemma_ours(found, prefix, location, (n - 1) as nat);
    }
}

/// A walk keeps what it has found and gathers only machines whose names start
/// with the prefix.
pub proof fn law_a_walk_gathers_only_ours(walk: WalkView, found: Seq<Found>, next: Option<u32>)
    requires
        forall|i: int|
            0 <= i < walk.machines.len() ==> walk.prefix.is_prefix_of(
                (#[trigger] walk.machines[i]).name,
            ),
    ensures
        ({
            let after = walk.after(found, next);
            &&& walk.machines.is_prefix_of(after.machines)
            &&& forall|i: int|
                0 <= i < after.machines.len() ==> walk.prefix.is_prefix_of(
                    (#[trigger] after.machines[i]).name,
                )
        }),
{
    let after = walk.after(found, next);
    let more = super::ours(found, walk.prefix, walk.mark(), found.len());
    lemma_ours(found, walk.prefix, walk.mark(), found.len());
    assert(walk.machines =~= after.machines.subrange(0, walk.machines.len() as int));
    assert forall|i: int| 0 <= i < after.machines.len() implies walk.prefix.is_prefix_of(
        (#[trigger] after.machines[i]).name,
    ) by {
        if i >= walk.machines.len() {
            assert(after.machines[i] == more[i - walk.machines.len()]);
        }
    }
}

/// A page that was read: what is on it, and the page that follows it in the same
/// location, if one does.
pub struct Leaf {
    pub found: Seq<Found>,
    pub next: Option<u32>,
}

/// The walk after these pages, in the order in which they were read.
pub open spec fn walked(walk: WalkView, leaves: Seq<Leaf>) -> WalkView
    decreases leaves.len(),
{
    if leaves.len() == 0 {
        walk
    } else {
        walked(walk.after(leaves[0].found, leaves[0].next), leaves.drop_first())
    }
}

/// There was a location to read each of the pages of.
pub open spec fn readable(walk: WalkView, leaves: Seq<Leaf>) -> bool
    decreases leaves.len(),
{
    leaves.len() > 0 ==> {
        &&& walk.locations.len() > 0
        &&& readable(walk.after(leaves[0].found, leaves[0].next), leaves.drop_first())
    }
}

/// How many pages belong to the first location: those through the first page that
/// no other follows.
pub open spec fn first_pages(leaves: Seq<Leaf>) -> nat
    decreases leaves.len(),
{
    if leaves.len() == 0 {
        0
    } else if leaves[0].next is None {
        1
    } else {
        1 + first_pages(leaves.drop_first())
    }
}

/// The machines of ours on these pages of one location, page by page.
pub open spec fn ours_at(leaves: Seq<Leaf>, prefix: Seq<char>, mark: Option<Seq<char>>) -> Seq<
    MachineView,
>
    decreases leaves.len(),
{
    if leaves.len() == 0 {
        Seq::empty()
    } else {
        super::ours(leaves[0].found, prefix, mark, leaves[0].found.len()) + ours_at(
            leaves.drop_first(),
            prefix,
            mark,
        )
    }
}

/// The machines of ours on these pages, location by location.
pub open spec fn ours_everywhere(
    leaves: Seq<Leaf>,
    prefix: Seq<char>,
    located: bool,
    locations: Seq<Seq<char>>,
) -> Seq<MachineView>
    decreases locations.len(),
{
    if locations.len() == 0 {
        Seq::empty()
    } else {
        let pages = first_pages(leaves) as int;
        let mark = if located {
            Some(locations[0])
        } else {
            None
        };
        ours_at(leaves.take(pages), prefix, mark) + ours_everywhere(
            leaves.skip(pages),
            prefix,
            located,
            locations.drop_first(),
        )
    }
}

/// How many locations these pages end.
pub open spec fn ended(leaves: Seq<Leaf>) -> nat
    decreases leaves.len(),
{
    if leaves.len() == 0 {
        0
    } else {
        ended(leaves.drop_last()) + if leaves.last().next is None {
            1nat
        } else {
            0
        }
    }
}

proof fn lemma_first_pages(leaves: Seq<Leaf>)
    ensures
        first_pages(leaves) <= leaves.len(),
        leaves.len() > 0 ==> first_pages(leaves) > 0,
    decreases leaves.len(),
{
    if leaves.len() > 0 {
        lemma_first_pages(leaves.drop_first());
    }
}

/// A walk that is over holds the machines of ours of every location, in the order
/// of the locations, and of each location those of every page from the first
/// through the one that no other follows; it holds nothing else.
pub proof fn law_a_finished_walk_holds_everything(walk: WalkView, leaves: Seq<Leaf>)
    requires
        readable(walk, leaves),
        walked(walk, leaves).locations.len() == 0,
    ensures
        walked(walk, leaves).machines == walk.machines + ours_everywhere(
            leaves,
            walk.prefix,
            walk.located,
            walk.locations,
        ),
    decreases leaves.len(),
{
    let whole = ours_everywhere(leaves, walk.prefix, walk.located, walk.locations);
    if leaves.len() == 0 {
        assert(walk.machines + whole =~= walk.machines);
    } else {
        let first = leaves[0];
        let rest = leaves.drop_first();
        let after = walk.after(first.found, first.next);
        let own = super::ours(first.found, walk.prefix, walk.mark(), first.found.len());
        law_a_finished_walk_holds_everything(after, rest);
        let behind = ours_everywhere(rest, walk.prefix, walk.located, after.locations);
        lemma_first_pages(leaves);
        lemma_first_pages(rest);
        let pages = first_pages(leaves) as int;
        let here = leaves.take(pages);
        assert(here[0] == first);
        assert(here.drop_first() =~= rest.take(pages - 1));
        assert(leaves.skip(pages) =~= rest.skip(pages - 1));
        assert(ours_at(here, walk.prefix, walk.mark()) == own + ours_at(
            rest.take(pages - 1),
            walk.prefix,
            walk.mark(),
        ));
        if first.next is None {
            assert(rest.take(0) =~= Seq::<Leaf>::empty());
            assert(rest.skip(0) =~= rest);
            assert(ours_at(here, walk.prefix, walk.mark()) =~= own);
        }
        assert(whole =~= own + behind);
        assert(walk.machines + whole =~= after.machines + behind);
    }
}

proof fn lemma_walked_step(walk: WalkView, leaves: Seq<Leaf>, i: int)
    requires
        0 <= i < leaves.len(),
        readable(walk, leaves),
    ensures
        walked(walk, leaves.take(i)).locations.len() > 0,
        walked(walk, leaves.take(i + 1)) == walked(walk, leaves.take(i)).after(
            leaves[i].found,
            leaves[i].next,
        ),
    decreases leaves.len(),
{
    let after = walk.after(leaves[0].found, leaves[0].next);
    if i == 0 {
        assert(leaves.take(1).drop_first() =~= Seq::<Leaf>::empty());
        assert(walked(after, leaves.take(1).drop_first()) == after);
    } else {
        assert(leaves.take(i).drop_first() =~= leaves.drop_first().take(i - 1));
        assert(leaves.take(i + 1).drop_first() =~= leaves.drop_first().take(i));
        lemma_walked_step(after, leaves.drop_first(), i - 1);
    }
}

/// Each page is read where the pages before it lead: in the first location that
/// they have not ended, and there page one first, and then the page that the one
/// before it named.
pub proof fn law_pages_are_read_in_order(walk: WalkView, leaves: Seq<Leaf>, i: int)
    requires
        readable(walk, leaves),
        walk.page == 1,
        0 <= i <= leaves.len(),
    ensures
        ({
            let at = walked(walk, leaves.take(i));
            &&& at.prefix == walk.prefix
            &&& at.located == walk.located
            &&& ended(leaves.take(i)) <= walk.locations.len()
            &&& at.locations == walk.locations.skip(ended(leaves.take(i)) as int)
            &&& at.page == if i == 0 || leaves[i - 1].next is None {
                1
            } else {
                leaves[i - 1].next->0
            }
        }),
    decreases i,
{
    if i == 0 {
        assert(leaves.take(0) =~= Seq::<Leaf>::empty());
        assert(walk.locations.skip(0) =~= walk.locations);
    } else {
        law_pages_are_read_in_order(walk, leaves, i - 1);
        lemma_walked_step(walk, leaves, i - 1);
        assert(leaves.take(i).drop_last() =~= leaves.take(i - 1));
        let before = walked(walk, leaves.take(i - 1));
        assert(before.locations.drop_first() =~= walk.locations.skip(
            ended(leaves.take(i - 1)) as int + 1,
        ));
    }
}

proof fn lemma_ours_holds(
    found: Seq<Found>,
    prefix: Seq<char>,
    mark: Option<Seq<char>>,
    n: nat,
    j: int,
)
    requires
        0 <= j < n <= found.len(),
        prefix.is_prefix_of(found[j].name@),
    ensures
        super::ours(found, prefix, mark, n).contains(super::machine_of(found[j], mark)),
    decreases n,
{
    let rest = super::ours(found, prefix, mark, (n - 1) as nat);
    text::lemma_contains_push(rest, super::machine_of(found[n - 1], mark));
    if j < n - 1 {
        lemma_ours_holds(found, prefix, mark, (n - 1) as nat, j);
    }
}

proof fn lemma_walked_prefix(walk: WalkView, leaves: Seq<Leaf>)
    ensures
        walked(walk, leaves).prefix == walk.prefix,
    decreases leaves.len(),
{
    if leaves.len() > 0 {
        lemma_walked_prefix(
            walk.after(leaves[0].found, leaves[0].next),
            leaves.drop_first(),
        );
    }
}

proof fn lemma_walked_keeps(walk: WalkView, leaves: Seq<Leaf>, machine: MachineView)
    requires
        walk.machines.contains(machine),
    ensures
        walked(walk, leaves).machines.contains(machine),
    decreases leaves.len(),
{
    if leaves.len() > 0 {
        let after = walk.after(leaves[0].found, leaves[0].next);
        let at = choose|at: int| 0 <= at < walk.machines.len() && walk.machines[at] == machine;
        assert(after.machines[at] == machine);
        lemma_walked_keeps(after, leaves.drop_first(), machine);
    }
}

proof fn lemma_walked_splits(walk: WalkView, leaves: Seq<Leaf>, i: int)
    requires
        0 <= i <= leaves.len(),
    ensures
        walked(walk, leaves) == walked(walked(walk, leaves.take(i)), leaves.skip(i)),
    decreases i,
{
    if i == 0 {
        assert(leaves.take(0) =~= Seq::<Leaf>::empty());
        assert(leaves.skip(0) =~= leaves);
    } else {
        let after = walk.after(leaves[0].found, leaves[0].next);
        assert(leaves.take(i).drop_first() =~= leaves.drop_first().take(i - 1));
        assert(leaves.skip(i) =~= leaves.drop_first().skip(i - 1));
        lemma_walked_splits(after, leaves.drop_first(), i - 1);
    }
}

/// Whatever page a machine of ours stands on, the walk holds it from then on.
pub proof fn law_nothing_of_ours_is_left_out(walk: WalkView, leaves: Seq<Leaf>, i: int, j: int)
    requires
        readable(walk, leaves),
        0 <= i < leaves.len(),
        0 <= j < leaves[i].found.len(),
        walk.prefix.is_prefix_of(leaves[i].found[j].name@),
    ensures
        walked(walk, leaves).machines.contains(
            super::machine_of(leaves[i].found[j], walked(walk, leaves.take(i)).mark()),
        ),
{
    let before = walked(walk, leaves.take(i));
    lemma_walked_prefix(walk, leaves.take(i));
    let mark = before.mark();
    let machine = super::machine_of(leaves[i].found[j], mark);
    let own = super::ours(leaves[i].found, before.prefix, mark, leaves[i].found.len());
    lemma_ours_holds(leaves[i].found, before.prefix, mark, leaves[i].found.len(), j);
    lemma_walked_step(walk, leaves, i);
    let at = choose|at: int| 0 <= at < own.len() && own[at] == machine;
    let after = walked(walk, leaves.take(i + 1));
    assert(after.machines[before.machines.len() + at] == machine);
    lemma_walked_splits(walk, leaves, i + 1);
    lemma_walked_keeps(after, leaves.skip(i + 1), machine);
}

/// A walk starts with nothing found at the first page of its first location, and reads
/// every location it was given, in order.
pub proof fn law_a_walk_starts_at_the_beginning(prefix: &str, locations: &[String], walk: Walk)
    requires
        call_ensures(Walk::new, (prefix, locations), walk),
    ensures
        walk.prefix@ == prefix@,
        walk.page == 1,
        walk.machines@.len() == 0,
        walk.located,
        walk.locations@.len() == locations@.len(),
        forall|i: int|
            0 <= i < locations@.len() ==> (#[trigger] walk.locations@[i])@ == locations@[i]@,
{
    assert(walk@.machines.len() == 0);
    let all = text::texts(locations@);
    assert(text::texts(walk.locations@) == all);
    assert forall|i: int| 0 <= i < locations@.len() implies (#[trigger] walk.locations@[i])@
        == locations@[i]@ by {
        assert(text::texts(walk.locations@)[i] == all[i]);
    }
}

/// A page adds the machines of ours that it shows behind those that were found before,
/// and is followed by the page it names, or else by the first page of the next location.
pub proof fn law_a_page_is_followed_by_the_next(
    walk: &mut Walk,
    found: &[Found],
    next: Option<u32>,
)
    requires
        old(walk)@.locations.len() > 0,
        call_ensures(Walk::turn, (walk, found, next), ()),
    ensures
        ({
            let before = old(walk)@;
            let after = final(walk)@;
            let mark = if before.located {
                Some(before.locations[0])
            } else {
                None
            };
            &&& after.prefix == before.prefix
            &&& after.located == before.located
            &&& next matches Some(page) ==> after.page == page && after.locations
                == before.locations
            &&& next is None ==> after.page == 1 && after.locations.len()
                == before.locations.len() - 1 && forall|i: int|
                0 <= i < after.locations.len() ==> #[trigger] after.locations[i]
                    == before.locations[i + 1]
            &&& after.machines.len() >= before.machines.len()
            &&& forall|i: int|
                0 <= i < before.machines.len() ==> #[trigger] after.machines[i]
                    == before.machines[i]
            &&& forall|j: int|
                0 <= j < found@.len() && before.prefix.is_prefix_of((#[trigger] found@[j]).name@)
                    ==> after.machines.contains(super::machine_of(found@[j], mark))
            &&& forall|i: int|
                before.machines.len() <= i < after.machines.len() ==> before.prefix.is_prefix_of(
                    (#[trigger] after.machines[i]).name,
                )
        }),
{
    let before = old(walk)@;
    let after = final(walk)@;
    let mark = before.mark();
    let more = super::ours(found@, before.prefix, mark, found@.len());
    lemma_ours(found@, before.prefix, mark, found@.len());
    assert forall|j: int|
        0 <= j < found@.len() && before.prefix.is_prefix_of(
            (#[trigger] found@[j]).name@,
        ) implies after.machines.contains(super::machine_of(found@[j], mark)) by {
        lemma_ours_holds(found@, before.prefix, mark, found@.len(), j);
        let machine = super::machine_of(found@[j], mark);
        let at = choose|at: int| 0 <= at < more.len() && more[at] == machine;
        assert(after.machines[before.machines.len() + at] == machine);
    }
    assert forall|i: int|
        before.machines.len() <= i < after.machines.len() implies before.prefix.is_prefix_of(
        (#[trigger] after.machines[i]).name,
    ) by {
        assert(after.machines[i] == more[i - before.machines.len()]);
    }
}

} // verus!
