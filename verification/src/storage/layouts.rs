//! Plot layouts: how the ones from a target's config file and the ones that
//! operators save share a name space.

use vstd::prelude::*;

use crate::config_manager::list_holds;
use crate::text::{same_text, texts};
use crate::text_map::{
    first_is_position, keys_distinct, lookup, position, position_is_first, TextMap,
};

verus! {

/// Where layouts that follow the config file come from.
pub const CONFIG_SOURCE: &'static str = "config";

/// Grid and time window of a layout that states none.
pub const DEFAULT_GRID: &'static str = "1x1";

pub const DEFAULT_TIME_WINDOW_S: u32 = 30;

/// One horizontal threshold line on a saved plot.
#[derive(Debug, Clone)]
pub struct Threshold {
    /// Bits of the level's 64-bit float.
    pub value_bits: u64,
    pub color: String,
    pub label: String,
}

/// Saved plot definition.
#[derive(Debug, Clone)]
pub struct SavedPlot {
    pub title: String,
    pub channels: Vec<String>,
    pub height: u16,
    pub position: [u16; 2],
    /// Bits of the axis limits' 64-bit floats.
    pub y_min_bits: Option<u64>,
    pub y_max_bits: Option<u64>,
    pub y_label: Option<String>,
    pub thresholds: Option<Vec<Threshold>>,
}

/// Saved layout definition.
#[derive(Debug, Clone)]
pub struct SavedLayout {
    pub id: i64,
    pub name: String,
    pub source: String,
    pub grid: String,
    pub time_window_s: u32,
    pub plots: Vec<SavedPlot>,
}

/// A stored layout's identity. A target's layouts are keyed by name.
#[derive(Debug, Clone)]
pub struct StoredLayout {
    pub id: i64,
    pub source: String,
}

impl StoredLayout {
    /// Whether the layout follows the config file.
    pub open spec fn from_config(self) -> bool {
        self.source@ == CONFIG_SOURCE@
    }
}

// ------------------------------------------------------------------- seeding

/// What seeding does for one layout of the file.
#[derive(Debug, Clone, Copy, PartialEq, Eq, Structural)]
pub enum SeedStep {
    /// An operator owns the name: the file's layout is left out.
    Skip,
    /// Replace the plots of the stored layout with this id.
    Replace(i64),
    /// Replace the plots of the layout that an earlier step inserted.
    ReplaceEarlier(usize),
    /// Insert the layout.
    Insert,
}

/// What seeding does: config layouts to delete, and a step for each layout of the
/// file.
#[derive(Debug)]
pub struct SeedPlan {
    pub stale: Vec<i64>,
    pub steps: Vec<SeedStep>,
    /// How many of the steps insert.
    pub inserted: usize,
}

/// First place of a text in a list, or the list's length.
pub open spec fn first_index(list: Seq<Seq<char>>, t: Seq<char>) -> int
    decreases list.len(),
{
    if list.len() == 0 || list[0] == t {
        0
    } else {
        1 + first_index(list.skip(1), t)
    }
}

/// Whether a stored layout is out of date: it came from the file, and the file no
/// longer has it.
pub open spec fn is_stale(name: Seq<char>, layout: StoredLayout, names: Seq<Seq<char>>) -> bool {
    layout.from_config() && !names.contains(name)
}

/// Ids of the stored layouts that are out of date.
pub open spec fn stale_ids(
    existing: Seq<(Seq<char>, StoredLayout)>,
    names: Seq<Seq<char>>,
) -> Seq<i64>
    decreases existing.len(),
{
    if existing.len() == 0 {
        Seq::empty()
    } else {
        let rest = stale_ids(existing.drop_last(), names);
        if is_stale(existing.last().0, existing.last().1, names) {
            rest.push(existing.last().1.id)
        } else {
            rest
        }
    }
}

/// What seeding does for the file's `i`-th layout.
pub open spec fn step_for(
    existing: Seq<(Seq<char>, StoredLayout)>,
    names: Seq<Seq<char>>,
    i: int,
) -> SeedStep {
    match lookup(existing, names[i]) {
        Some(layout) => if layout.from_config() {
            SeedStep::Replace(layout.id)
        } else {
            SeedStep::Skip
        },
        None => {
            let earlier = first_index(names, names[i]);
            if earlier < i {
                SeedStep::ReplaceEarlier(earlier as usize)
            } else {
                SeedStep::Insert
            }
        },
    }
}

/// How many steps insert.
pub open spec fn inserts(steps: Seq<SeedStep>) -> nat
    decreases steps.len(),
{
    if steps.len() == 0 {
        0
    } else {
        inserts(steps.drop_last()) + if steps.last() == SeedStep::Insert {
            1nat
        } else {
            0
        }
    }
}

fn find_first(list: &Vec<String>, t: &str) -> (at: usize)
    ensures
        at == first_index(texts(list@), t@),
        at <= list@.len(),
{
    let ghost all = texts(list@);
    let mut at: usize = 0;
    assert(all.skip(0) =~= all);
    while at < list.len() && !same_text(list[at].as_str(), t)
        invariant
            all == texts(list@),
            at <= list@.len(),
            first_index(all, t@) == at + first_index(all.skip(at as int), t@),
        decreases list@.len() - at,
    {
        assert(all.skip(at as int).skip(1) =~= all.skip(at + 1));
        at = at + 1;
    }
    at
}

/// Plans how a target's stored layouts follow its config file: what the file no
/// longer has is deleted, what it has is inserted or replaced in place, and a
/// name that an operator saved a layout under stays the operator's.
pub fn seed_plan(existing: &TextMap<StoredLayout>, names: &Vec<String>) -> (plan: SeedPlan)
    ensures
        plan.stale@ == stale_ids(existing@, texts(names@)),
        plan.steps@.len() == names@.len(),
        forall|i: int|
            0 <= i < names@.len() ==> #[trigger] plan.steps@[i] == step_for(
                existing@,
                texts(names@),
                i,
            ),
        plan.inserted == inserts(plan.steps@),
{
    let ghost listed = texts(names@);
    let mut stale: Vec<i64> = Vec::new();
    let n: usize = existing.len();
    assert(stale@ =~= Seq::empty());
    for i in 0..n
        invariant
            n == existing@.len(),
            listed == texts(names@),
            stale@ == stale_ids(existing@.take(i as int), listed),
    {
        assert(existing@.take(i + 1).drop_last() =~= existing@.take(i as int));
        let (name, layout) = existing.entry(i);
        if same_text(layout.source.as_str(), CONFIG_SOURCE) && !list_holds(names, name.as_str()) {
            stale.push(layout.id);
        }
    }
    assert(existing@.take(n as int) =~= existing@);
    let mut steps: Vec<SeedStep> = Vec::new();
    let mut inserted: usize = 0;
    for i in 0..names.len()
        invariant
            listed == texts(names@),
            steps@.len() == i,
            forall|j: int|
                0 <= j < i ==> #[trigger] steps@[j] == step_for(existing@, listed, j),
            inserted == inserts(steps@),
            inserted <= i,
    {
        let step = match existing.get(names[i].as_str()) {
            Some(layout) => if same_text(layout.source.as_str(), CONFIG_SOURCE) {
                SeedStep::Replace(layout.id)
            } else {
                SeedStep::Skip
            },
            None => {
                let earlier: usize = find_first(names, names[i].as_str());
                if earlier < i {
                    SeedStep::ReplaceEarlier(earlier)
                } else {
                    inserted = inserted + 1;
                    SeedStep::Insert
                }
            },
        };
        assert(step == step_for(existing@, listed, i as int));
        let ghost before = steps@;
        steps.push(step);
        assert(steps@.drop_last() =~= before);
    }
    SeedPlan { stale, steps, inserted }
}

proof fn stale_is_from_config(
    existing: Seq<(Seq<char>, StoredLayout)>,
    names: Seq<Seq<char>>,
    id: i64,
)
    requires
        stale_ids(existing, names).contains(id),
    ensures
        exists|i: int|
            0 <= i < existing.len() && (#[trigger] existing[i]).1.id == id
                && existing[i].1.from_config() && !names.contains(existing[i].0),
    decreases existing.len(),
{
    let all = stale_ids(existing, names);
    let k = choose|k: int| 0 <= k < all.len() && all[k] == id;
    if existing.len() > 0 {
        let front = existing.drop_last();
        let rest = stale_ids(front, names);
        if is_stale(existing.last().0, existing.last().1, names) && k == all.len() - 1 {
            assert(existing[existing.len() - 1].1.id == id);
        } else {
            assert(rest[k] == id);
            stale_is_from_config(front, names, id);
            let i = choose|i: int|
                0 <= i < front.len() && (#[trigger] front[i]).1.id == id
                    && front[i].1.from_config() && !names.contains(front[i].0);
            assert(existing[i].1.id == id);
        }
    }
}

/// Seeding never touches a layout that an operator saved: every id it deletes or
/// replaces is that of a layout from the config file.
pub proof fn operator_layouts_are_kept(
    existing: Seq<(Seq<char>, StoredLayout)>,
    names: Seq<Seq<char>>,
    id: i64,
)
    requires
        stale_ids(existing, names).contains(id) || exists|i: int|
            0 <= i < names.len() && #[trigger] step_for(existing, names, i) == SeedStep::Replace(id),
    ensures
        exists|i: int|
            0 <= i < existing.len() && (#[trigger] existing[i]).1.id == id
                && existing[i].1.from_config(),
{
    if stale_ids(existing, names).contains(id) {
        stale_is_from_config(existing, names, id);
        let i = choose|i: int|
            0 <= i < existing.len() && (#[trigger] existing[i]).1.id == id
                && existing[i].1.from_config() && !names.contains(existing[i].0);
        assert(existing[i].1.id == id);
    } else {
        let i = choose|i: int|
            0 <= i < names.len() && #[trigger] step_for(existing, names, i) == SeedStep::Replace(
                id,
            );
        position_is_first(existing, names[i]);
        let at = position(existing, names[i]);
        assert(existing[at].1.id == id);
    }
}

/// Whether `after` is what carrying out a plan on `before` leaves: operators'
/// layouts as they were, config layouts exactly for the names of the file.
pub open spec fn seeded(
    before: Seq<(Seq<char>, StoredLayout)>,
    names: Seq<Seq<char>>,
    after: Seq<(Seq<char>, StoredLayout)>,
) -> bool {
    &&& keys_distinct(after)
    &&& forall|name: Seq<char>| #[trigger]
        lookup(after, name) is Some <==> (match lookup(before, name) {
            Some(layout) => !layout.from_config() || names.contains(name),
            None => names.contains(name),
        })
    &&& forall|name: Seq<char>|
        (#[trigger] lookup(after, name)) matches Some(layout) ==> match lookup(before, name) {
            Some(prior) => layout == prior,
            None => layout.from_config(),
        }
}

proof fn nothing_stale(existing: Seq<(Seq<char>, StoredLayout)>, names: Seq<Seq<char>>)
    requires
        forall|i: int|
            0 <= i < existing.len() ==> !is_stale(
                (#[trigger] existing[i]).0,
                existing[i].1,
                names,
            ),
    ensures
        stale_ids(existing, names).len() == 0,
    decreases existing.len(),
{
    if existing.len() > 0 {
        let front = existing.drop_last();
        assert forall|i: int| 0 <= i < front.len() implies !is_stale(
            (#[trigger] front[i]).0,
            front[i].1,
            names,
        ) by {
            assert(front[i] == existing[i]);
        }
        nothing_stale(front, names);
        assert(!is_stale(existing[existing.len() - 1].0, existing[existing.len() - 1].1, names));
    }
}

/// Seeding again changes nothing: once the stored layouts follow the file, no
/// layout is stale and none is inserted.
pub proof fn seeding_settles(
    before: Seq<(Seq<char>, StoredLayout)>,
    names: Seq<Seq<char>>,
    after: Seq<(Seq<char>, StoredLayout)>,
    i: int,
)
    requires
        seeded(before, names, after),
        0 <= i < names.len(),
    ensures
        stale_ids(after, names).len() == 0,
        step_for(after, names, i) is Skip || step_for(after, names, i) is Replace,
{
    assert forall|j: int| 0 <= j < after.len() implies !is_stale(
        (#[trigger] after[j]).0,
        after[j].1,
        names,
    ) by {
        first_is_position(after, after[j].0, j);
        assert(lookup(after, after[j].0) == Some(after[j].1));
    }
    nothing_stale(after, names);
    assert(names.contains(names[i]));
    assert(lookup(after, names[i]) is Some);
}

// ------------------------------------------------------- saving and deleting

/// Why a layout cannot be saved under a name.
pub open spec fn clash_text(name: Seq<char>) -> Seq<char> {
    "A config-sourced layout named '"@ + name
        + "' already exists. Pick a different name to save as a user layout."@
}

/// Why an operator's layout cannot be saved under a name: a layout of the config
/// file has it. None when it can be saved.
pub fn save_conflict(existing: &TextMap<StoredLayout>, name: &str) -> (r: Option<String>)
    ensures
        r is Some <==> (lookup(existing@, name@) matches Some(layout) && layout.from_config()),
        r matches Some(text) ==> text@ == clash_text(name@),
{
    match existing.get(name) {
        Some(layout) => if same_text(layout.source.as_str(), CONFIG_SOURCE) {
            let mut text: String = "A config-sourced layout named '".to_owned();
            text.append(name);
            text.append("' already exists. Pick a different name to save as a user layout.");
            return Some(text);
        },
        None => {},
    }
    None
}

/// Whether a layout may be deleted, given where it comes from: it has to exist,
/// and not to follow the config file.
pub fn may_delete(source: Option<&str>) -> (r: bool)
    ensures
        r == (source matches Some(s) && s@ != CONFIG_SOURCE@),
{
    match source {
        Some(s) => !same_text(s, CONFIG_SOURCE),
        None => false,
    }
}

// ----------------------------------------------------------- unknown channels

/// The channels of a list that are not known.
pub open spec fn unknown_of(channels: Seq<Seq<char>>, known: Seq<Seq<char>>) -> Seq<Seq<char>>
    decreases channels.len(),
{
    if channels.len() == 0 {
        Seq::empty()
    } else {
        let rest = unknown_of(channels.drop_last(), known);
        if known.contains(channels.last()) {
            rest
        } else {
            rest.push(channels.last())
        }
    }
}

/// The channels of plots that are not known, in order.
pub open spec fn unknown_in(plots: Seq<SavedPlot>, known: Seq<Seq<char>>) -> Seq<Seq<char>>
    decreases plots.len(),
{
    if plots.len() == 0 {
        Seq::empty()
    } else {
        unknown_in(plots.drop_last(), known) + unknown_of(texts(plots.last().channels@), known)
    }
}

/// Channel references of a layout that the current dictionaries cannot produce.
pub fn unknown_channels(layout: &SavedLayout, known: &Vec<String>) -> (out: Vec<String>)
    ensures
        texts(out@) == unknown_in(layout.plots@, texts(known@)),
{
    let mut out: Vec<String> = Vec::new();
    let ghost plots = layout.plots@;
    let ghost named = texts(known@);
    assert(texts(out@) =~= Seq::empty());
    for i in 0..layout.plots.len()
        invariant
            plots == layout.plots@,
            named == texts(known@),
            texts(out@) == unknown_in(plots.take(i as int), named),
    {
        assert(plots.take(i + 1).drop_last() =~= plots.take(i as int));
        let channels = &layout.plots[i].channels;
        let ghost all = texts(channels@);
        let ghost start = texts(out@);
        assert(start + unknown_of(all.take(0), named) =~= start);
        for k in 0..channels.len()
            invariant
                all == texts(channels@),
                named == texts(known@),
                texts(out@) == start + unknown_of(all.take(k as int), named),
        {
            assert(all.take(k + 1).drop_last() =~= all.take(k as int));
            if !list_holds(known, channels[k].as_str()) {
                let ghost prior = texts(out@);
                out.push(channels[k].as_str().to_owned());
                assert(texts(out@) =~= prior.push(all[k as int]));
            }
            assert(texts(out@) =~= start + unknown_of(all.take(k + 1), named));
        }
        assert(all.take(all.len() as int) =~= all);
    }
    assert(plots.take(plots.len() as int) =~= plots);
    out
}

/// The first place of a text in a list holds it, and no earlier one does.
proof fn first_index_is_first(list: Seq<Seq<char>>, t: Seq<char>)
    ensures
        0 <= first_index(list, t) <= list.len(),
        first_index(list, t) < list.len() ==> list[first_index(list, t)] == t,
        forall|i: int| 0 <= i < first_index(list, t) ==> #[trigger] list[i] != t,
    decreases list.len(),
{
    if list.len() > 0 && list[0] != t {
        let rest = list.skip(1);
        first_index_is_first(rest, t);
        assert forall|i: int| 0 <= i < first_index(list, t) implies #[trigger] list[i] != t by {
            if i > 0 {
                assert(list[i] == rest[i - 1]);
            }
        }
    }
}

/// Seeding decides by who owns a name: an operator's layout is left alone, one from the
/// file is replaced under its id, and a name that nobody has is inserted at its first
/// place in the file and replaced at every later one.
pub proof fn seeding_decides_by_owner(
    existing: Seq<(Seq<char>, StoredLayout)>,
    names: Seq<Seq<char>>,
    i: int,
)
    requires
        0 <= i < names.len(),
        names.len() <= usize::MAX,
    ensures
        match lookup(existing, names[i]) {
            Some(layout) => if layout.source@ == "config"@ {
                step_for(existing, names, i) == SeedStep::Replace(layout.id)
            } else {
                step_for(existing, names, i) == SeedStep::Skip
            },
            None => {
                &&& step_for(existing, names, i) is Insert <==> forall|j: int|
                    0 <= j < i ==> #[trigger] names[j] != names[i]
                &&& !(step_for(existing, names, i) is Insert) ==> {
                    &&& step_for(existing, names, i) matches SeedStep::ReplaceEarlier(j)
                    &&& j < i
                    &&& names[j as int] == names[i]
                    &&& step_for(existing, names, j as int) is Insert
                }
            },
        },
{
    first_index_is_first(names, names[i]);
    let k = first_index(names, names[i]);
    if lookup(existing, names[i]) is None && k < i {
        assert(names[k] == names[i]);
    }
}

/// What the file no longer has is deleted: every stored layout from the config file whose
/// name the file lacks is among the stale ones, and nothing else is.
pub proof fn dropped_layouts_are_stale(
    existing: Seq<(Seq<char>, StoredLayout)>,
    names: Seq<Seq<char>>,
    id: i64,
)
    ensures
        stale_ids(existing, names).contains(id) <==> exists|i: int|
            0 <= i < existing.len() && (#[trigger] existing[i]).1.id == id
                && existing[i].1.source@ == "config"@ && !names.contains(existing[i].0),
    decreases existing.len(),
{
    if stale_ids(existing, names).contains(id) {
        stale_is_from_config(existing, names, id);
    }
    if existing.len() > 0 {
        let front = existing.drop_last();
        dropped_layouts_are_stale(front, names, id);
        let before = stale_ids(front, names);
        let all = stale_ids(existing, names);
        if exists|i: int|
            0 <= i < existing.len() && (#[trigger] existing[i]).1.id == id
                && existing[i].1.source@ == "config"@ && !names.contains(existing[i].0) {
            let i = choose|i: int|
                0 <= i < existing.len() && (#[trigger] existing[i]).1.id == id
                    && existing[i].1.source@ == "config"@ && !names.contains(existing[i].0);
            if i < front.len() {
                assert(front[i] == existing[i]);
                let k = choose|k: int| 0 <= k < before.len() && before[k] == id;
                assert(all[k] == id);
            } else {
                assert(all[all.len() - 1] == id);
            }
        }
    }
}

proof fn unknown_of_is(channels: Seq<Seq<char>>, known: Seq<Seq<char>>, t: Seq<char>)
    ensures
        unknown_of(channels, known).contains(t) <==> channels.contains(t) && !known.contains(t),
    decreases channels.len(),
{
    if channels.len() > 0 {
        let front = channels.drop_last();
        unknown_of_is(front, known, t);
        let before = unknown_of(front, known);
        let all = unknown_of(channels, known);
        assert(channels[channels.len() - 1] == channels.last());
        if front.contains(t) {
            let i = choose|i: int| 0 <= i < front.len() && front[i] == t;
            assert(channels[i] == t);
        }
        if channels.contains(t) && t != channels.last() {
            let i = choose|i: int| 0 <= i < channels.len() && channels[i] == t;
            assert(front[i] == t);
        }
        if before.contains(t) {
            let k = choose|k: int| 0 <= k < before.len() && before[k] == t;
            assert(all[k] == t);
        }
        if !known.contains(channels.last()) {
            assert(all[all.len() - 1] == channels.last());
            if all.contains(t) && t != channels.last() {
                let k = choose|k: int| 0 <= k < all.len() && all[k] == t;
                assert(before[k] == t);
            }
        }
    }
}

/// The channels reported as unknown are exactly those that a plot refers to and that the
/// dictionaries cannot produce.
pub proof fn unknown_channels_are_those(
    plots: Seq<SavedPlot>,
    known: Seq<Seq<char>>,
    t: Seq<char>,
)
    ensures
        unknown_in(plots, known).contains(t) <==> !known.contains(t) && exists|i: int|
            0 <= i < plots.len() && texts((#[trigger] plots[i]).channels@).contains(t),
    decreases plots.len(),
{
    if plots.len() > 0 {
        let front = plots.drop_last();
        unknown_channels_are_those(front, known, t);
        let last = texts(plots.last().channels@);
        unknown_of_is(last, known, t);
        let (a, b) = (unknown_in(front, known), unknown_of(last, known));
        let all = unknown_in(plots, known);
        assert(all == a + b);
        assert(plots[plots.len() - 1] == plots.last());
        if a.contains(t) {
            let k = choose|k: int| 0 <= k < a.len() && a[k] == t;
            assert(all[k] == t);
        }
        if b.contains(t) {
            let k = choose|k: int| 0 <= k < b.len() && b[k] == t;
            assert(all[a.len() + k] == t);
        }
        if all.contains(t) {
            let k = choose|k: int| 0 <= k < all.len() && all[k] == t;
            if k < a.len() {
                assert(a[k] == t);
            } else {
                assert(b[k - a.len()] == t);
            }
        }
        if exists|i: int|
            0 <= i < front.len() && texts((#[trigger] front[i]).channels@).contains(t) {
            let i = choose|i: int|
                0 <= i < front.len() && texts((#[trigger] front[i]).channels@).contains(t);
            assert(plots[i] == front[i]);
        }
        if exists|i: int|
            0 <= i < plots.len() && texts((#[trigger] plots[i]).channels@).contains(t) {
            let i = choose|i: int|
                0 <= i < plots.len() && texts((#[trigger] plots[i]).channels@).contains(t);
            if i < front.len() {
                assert(plots[i] == front[i]);
            }
        }
    }
}

/// Every step that inserts is counted, and no other.
pub proof fn inserts_are_counted(steps: Seq<SeedStep>, step: SeedStep)
    ensures
        inserts(Seq::empty()) == 0,
        step is Insert ==> inserts(steps.push(step)) == inserts(steps) + 1,
        !(step is Insert) ==> inserts(steps.push(step)) == inserts(steps),
{
    assert(steps.push(step).drop_last() =~= steps);
}

/// Unknown channels are reported as often as they are referred to, in the order in which
/// they are.
pub proof fn unknown_channels_keep_their_order(
    a: Seq<Seq<char>>,
    b: Seq<Seq<char>>,
    known: Seq<Seq<char>>,
)
    ensures
        unknown_of(a + b, known) == unknown_of(a, known) + unknown_of(b, known),
    decreases b.len(),
{
    if b.len() == 0 {
        assert(a + b =~= a);
        assert(unknown_of(a, known) + unknown_of(b, known) =~= unknown_of(a, known));
    } else {
        assert((a + b).drop_last() =~= a + b.drop_last());
        unknown_channels_keep_their_order(a, b.drop_last(), known);
        assert(unknown_of(a + b, known) =~= unknown_of(a, known) + unknown_of(b, known));
    }
}

} // verus!
