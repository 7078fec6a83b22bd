//! Tags: a deterministic colour for each name, and get-or-create of tag rows.

use vstd::prelude::*;
use crate::models::TagRow;
use crate::text::string_of;
use crate::ids::new_id;

verus! {

/// The rolling hash of the bytes of a tag name: `h = h * 31 + byte`, modulo 2^32.
pub open spec fn name_hash(b: Seq<u8>) -> nat
    decreases b.len(),
{
    if b.len() == 0 {
        0
    } else {
        (name_hash(b.drop_last()) * 31 + b.last() as nat) % 0x1_0000_0000
    }
}

pub open spec fn hex_upper(d: nat) -> char {
    if d == 0 { '0' } else if d == 1 { '1' } else if d == 2 { '2' } else if d == 3 { '3' }
    else if d == 4 { '4' } else if d == 5 { '5' } else if d == 6 { '6' } else if d == 7 { '7' }
    else if d == 8 { '8' } else if d == 9 { '9' } else if d == 10 { 'A' } else if d == 11 { 'B' }
    else if d == 12 { 'C' } else if d == 13 { 'D' } else if d == 14 { 'E' } else { 'F' }
}

fn hex_upper_exec(d: u64) -> (r: char)
    ensures
        r == hex_upper(d as nat),
{
    if d == 0 { '0' } else if d == 1 { '1' } else if d == 2 { '2' } else if d == 3 { '3' }
    else if d == 4 { '4' } else if d == 5 { '5' } else if d == 6 { '6' } else if d == 7 { '7' }
    else if d == 8 { '8' } else if d == 9 { '9' } else if d == 10 { 'A' } else if d == 11 { 'B' }
    else if d == 12 { 'C' } else if d == 13 { 'D' } else if d == 14 { 'E' } else { 'F' }
}

/// `#RRGGBB`: the low 24 bits of `h` as six uppercase hex digits.
pub open spec fn color_of_hash(h: nat) -> Seq<char> {
    seq![
        '#',
        hex_upper((h / 0x100000) % 16),
        hex_upper((h / 0x10000) % 16),
        hex_upper((h / 0x1000) % 16),
        hex_upper((h / 0x100) % 16),
        hex_upper((h / 0x10) % 16),
        hex_upper(h % 16),
    ]
}

/// The colour of a tag name, from the UTF-8 bytes of the name.
pub open spec fn tag_color(name: Seq<char>) -> Seq<char> {
    color_of_hash(name_hash(vstd::utf8::encode_utf8(name)))
}

/// The colour of the tag named `s`: the same name always gives the same colour.
pub fn string_to_hex_color(s: &str) -> (r: String)
    ensures
        r@ == tag_color(s@),
{
    let bytes = s.as_bytes();
    let mut hash: u64 = 0;
    let mut i: usize = 0;
    while i < bytes.len()
        invariant
            bytes@ == vstd::utf8::encode_utf8(s@),
            i <= bytes@.len(),
            hash == name_hash(bytes@.subrange(0, i as int)),
            hash < 0x1_0000_0000,
        decreases bytes@.len() - i,
    {
        assert(bytes@.subrange(0, i + 1).drop_last() =~= bytes@.subrange(0, i as int));
        hash = (hash * 31 + bytes[i] as u64) % 0x1_0000_0000;
        i = i + 1;
    }
    assert(bytes@.subrange(0, bytes@.len() as int) =~= bytes@);
    let mut out: Vec<char> = Vec::new();
    out.push('#');
    out.push(hex_upper_exec((hash / 0x100000) % 16));
    out.push(hex_upper_exec((hash / 0x10000) % 16));
    out.push(hex_upper_exec((hash / 0x1000) % 16));
    out.push(hex_upper_exec((hash / 0x100) % 16));
    out.push(hex_upper_exec((hash / 0x10) % 16));
    out.push(hex_upper_exec(hash % 16));
    assert(out@ =~= color_of_hash(hash as nat));
    string_of(&out)
}

/// A new tag row named `name`, created at `now`: a fresh id and the colour of the name.
pub fn new_tag_row(name: &str, now: &str) -> (r: TagRow)
    ensures
        r.id@.len() == 36,
        r.name@ == name@,
        r.color@ == tag_color(name@),
        r.created_at@ == now@,
        r.updated_at@ == now@,
{
    TagRow {
        id: new_id(),
        name: name.to_owned(),
        color: string_to_hex_color(name),
        created_at: now.to_owned(),
        updated_at: now.to_owned(),
    }
}

// ---------------------------------------------------------------- get-or-create

/// Get-or-create over the tag table `t` (name to id), name by name: an existing tag
/// keeps its id; a missing one is created with the id `fresh[i]` of its position.
/// Returns the table afterwards and the id of each name.
pub open spec fn ensure_all(
    t: Map<Seq<char>, Seq<char>>,
    names: Seq<Seq<char>>,
    fresh: Seq<Seq<char>>,
) -> (Map<Seq<char>, Seq<char>>, Seq<Seq<char>>)
    decreases names.len(),
{
    if names.len() == 0 {
        (t, Seq::empty())
    } else {
        let (t1, ids) = ensure_all(t, names.drop_last(), fresh);
        let n = names.last();
        if t1.contains_key(n) {
            (t1, ids.push(t1[n]))
        } else {
            let id = fresh[names.len() - 1];
            (t1.insert(n, id), ids.push(id))
        }
    }
}

proof fn lemma_ensure_all_facts(t: Map<Seq<char>, Seq<char>>, names: Seq<Seq<char>>, fresh: Seq<Seq<char>>)
    ensures
        ({
            let (t1, ids) = ensure_all(t, names, fresh);
            &&& ids.len() == names.len()
            &&& forall|i: int| 0 <= i < names.len() ==> #[trigger] t1.contains_key(names[i]) && ids[i] == t1[names[i]]
            &&& forall|k: Seq<char>| #[trigger] t.contains_key(k) ==> t1.contains_key(k) && t1[k] == t[k]
            &&& t1.dom() == t.dom() + names.to_set()
        }),
    decreases names.len(),
{
    if names.len() > 0 {
        let p = names.drop_last();
        lemma_ensure_all_facts(t, p, fresh);
        let (t1, ids) = ensure_all(t, names, fresh);
        let (t0, ids0) = ensure_all(t, p, fresh);
        assert(names =~= p.push(names.last()));
        p.lemma_push_to_set_commute(names.last());
        assert forall|i: int| 0 <= i < names.len() implies #[trigger] t1.contains_key(names[i]) && ids[i] == t1[names[i]] by {
            if i < names.len() - 1 {
                assert(names[i] == p[i]);
            }
        }
        assert(t1.dom() =~= t.dom() + names.to_set());
    } else {
        assert(names.to_set() =~= Set::<Seq<char>>::empty());
        assert(t.dom() + names.to_set() =~= t.dom());
    }
}

proof fn lemma_ensure_all_present(t: Map<Seq<char>, Seq<char>>, names: Seq<Seq<char>>, fresh: Seq<Seq<char>>)
    requires
        forall|i: int| 0 <= i < names.len() ==> t.contains_key(#[trigger] names[i]),
    ensures
        ensure_all(t, names, fresh).0 == t,
        forall|i: int| 0 <= i < names.len() ==> #[trigger] ensure_all(t, names, fresh).1[i] == t[names[i]],
        ensure_all(t, names, fresh).1.len() == names.len(),
    decreases names.len(),
{
    if names.len() > 0 {
        let p = names.drop_last();
        assert forall|i: int| 0 <= i < p.len() implies t.contains_key(#[trigger] p[i]) by {
            assert(p[i] == names[i]);
        }
        lemma_ensure_all_present(t, p, fresh);
        assert forall|i: int| 0 <= i < names.len() implies #[trigger] ensure_all(t, names, fresh).1[i] == t[names[i]] by {
            if i < names.len() - 1 {
                assert(names[i] == p[i]);
            }
        }
    }
}

/// Tag idempotence: ensuring the same names a second time creates nothing, leaves
/// the table as the first time left it, and returns the same ids. After the first
/// time each name has exactly one tag, the table keeps every tag it had, and each
/// returned id is the id of its name.
pub proof fn lemma_ensure_tags_idempotent(
    t: Map<Seq<char>, Seq<char>>,
    names: Seq<Seq<char>>,
    fresh: Seq<Seq<char>>,
    fresh2: Seq<Seq<char>>,
)
    ensures
        ({
            let (t1, ids1) = ensure_all(t, names, fresh);
            let (t2, ids2) = ensure_all(t1, names, fresh2);
            &&& t2 == t1
            &&& ids2 == ids1
            &&& t1.dom() == t.dom() + names.to_set()
            &&& forall|k: Seq<char>| #[trigger] t.contains_key(k) ==> t1[k] == t[k]
            &&& forall|i: int| 0 <= i < names.len() ==> #[trigger] ids1[i] == t1[names[i]]
        }),
{
    let (t1, ids1) = ensure_all(t, names, fresh);
    lemma_ensure_all_facts(t, names, fresh);
    assert forall|i: int| 0 <= i < names.len() implies #[trigger] ids1[i] == t1[names[i]] by {
        assert(t1.contains_key(names[i]));
    }
    lemma_ensure_all_present(t1, names, fresh2);
    let (t2, ids2) = ensure_all(t1, names, fresh2);
    assert forall|i: int| 0 <= i < names.len() implies ids2[i] == ids1[i] by {
        assert(t1.contains_key(names[i]));
        assert(ensure_all(t1, names, fresh2).1[i] == t1[names[i]]);
    }
    assert(ids2 =~= ids1);
}

proof fn lemma_ensure_all_fresh_prefix(
    t: Map<Seq<char>, Seq<char>>,
    names: Seq<Seq<char>>,
    f: Seq<Seq<char>>,
    g: Seq<Seq<char>>,
)
    requires
        forall|i: int| 0 <= i < names.len() ==> #[trigger] f[i] == g[i],
    ensures
        ensure_all(t, names, f) == ensure_all(t, names, g),
    decreases names.len(),
{
    if names.len() > 0 {
        lemma_ensure_all_fresh_prefix(t, names.drop_last(), f, g);
        assert(f[names.len() - 1] == g[names.len() - 1]);
    }
}

/// What the driver must do next while ensuring tags.
#[derive(Debug)]
pub enum TagAction {
    /// Report the id of the tag named `name`, if there is one.
    LookUp { name: String },
    /// Insert this tag row inside the open transaction.
    Create { tag: TagRow },
    /// Done: the id of each name, in order.
    Finish { ids: Vec<String> },
    /// Give up with this store error.
    Fail { message: String },
}

/// What happened to the last action.
#[derive(Debug, Clone)]
pub enum TagEvent {
    Found { id: Option<String> },
    Created,
    Failed { message: String },
}

/// Ensuring tags by name, one name at a time.
pub struct TagEnsure {
    names: Vec<String>,
    now: String,
    index: usize,
    ids: Vec<String>,
    creating: Option<String>,
    done: bool,
}

pub struct TagRunView {
    pub names: Seq<Seq<char>>,
    pub index: nat,
    pub ids: Seq<Seq<char>>,
    pub creating: Option<Seq<char>>,
    pub done: bool,
}

pub open spec fn str_views(s: Seq<String>) -> Seq<Seq<char>> {
    s.map_values(|x: String| x@)
}

impl View for TagEnsure {
    type V = TagRunView;

    closed spec fn view(&self) -> TagRunView {
        TagRunView {
            names: str_views(self.names@),
            index: self.index as nat,
            ids: str_views(self.ids@),
            creating: match self.creating {
                Some(x) => Some(x@),
                None => None,
            },
            done: self.done,
        }
    }
}

pub enum TagEventView {
    Found(Option<Seq<char>>),
    Created,
    Failed,
}

impl TagEvent {
    pub open spec fn view(&self) -> TagEventView {
        match self {
            TagEvent::Found { id } => TagEventView::Found(
                match id {
                    Some(x) => Some(x@),
                    None => None,
                },
            ),
            TagEvent::Created => TagEventView::Created,
            TagEvent::Failed { .. } => TagEventView::Failed,
        }
    }
}

pub enum TagActionView {
    LookUp(Seq<char>),
    Create(Seq<char>, Seq<char>),
    Finish(Seq<Seq<char>>),
    Fail,
}

impl TagAction {
    pub open spec fn view(&self) -> TagActionView {
        match self {
            TagAction::LookUp { name } => TagActionView::LookUp(name@),
            TagAction::Create { tag } => TagActionView::Create(tag.name@, tag.id@),
            TagAction::Finish { ids } => TagActionView::Finish(str_views(ids@)),
            TagAction::Fail { .. } => TagActionView::Fail,
        }
    }
}

/// After the id of the current name is known: move on to the next name, or finish.
pub open spec fn advance(r: TagRunView, id: Seq<char>) -> (TagRunView, TagActionView) {
    let ids = r.ids.push(id);
    let next = r.index + 1;
    if next == r.names.len() {
        (TagRunView { index: next, ids, creating: None, done: true, ..r }, TagActionView::Finish(ids))
    } else {
        (
            TagRunView { index: next, ids, creating: None, ..r },
            TagActionView::LookUp(r.names[next as int]),
        )
    }
}

/// One step: the next state and action. `fresh` is the id given to a tag created
/// by this step.
pub open spec fn tag_step(r: TagRunView, e: TagEventView, fresh: Seq<char>) -> (TagRunView, TagActionView) {
    let name = r.names[r.index as int];
    let failed = (TagRunView { done: true, ..r }, TagActionView::Fail);
    match r.creating {
        None => match e {
            TagEventView::Found(Some(id)) => advance(r, id),
            TagEventView::Found(None) => (
                TagRunView { creating: Some(fresh), ..r },
                TagActionView::Create(name, fresh),
            ),
            _ => failed,
        },
        Some(id) => match e {
            TagEventView::Created => advance(r, id),
            _ => failed,
        },
    }
}

/// No two tags share an id: the store keys tags by id.
pub open spec fn ids_unique(t: Map<Seq<char>, Seq<char>>) -> bool {
    forall|a: Seq<char>, b: Seq<char>| #[trigger] t.contains_key(a) && #[trigger] t.contains_key(b) && t[a] == t[b] ==> a == b
}

/// No tag has the id `id` yet.
pub open spec fn id_unused(t: Map<Seq<char>, Seq<char>>, id: Seq<char>) -> bool {
    forall|k: Seq<char>| #[trigger] t.contains_key(k) ==> t[k] != id
}

/// What holds between steps of a run that started on the tag table `t0`, now `t`.
pub open spec fn tag_inv(r: TagRunView, t0: Map<Seq<char>, Seq<char>>, t: Map<Seq<char>, Seq<char>>) -> bool {
    &&& !r.done
    &&& ids_unique(t)
    &&& r.index < r.names.len()
    &&& ensure_all(t0, r.names.subrange(0, r.index as int), r.ids) == (t, r.ids)
    &&& r.creating is Some ==> !t.contains_key(r.names[r.index as int])
}

/// The lookup reports the table truthfully, and an insert succeeds only with an id
/// that no tag has yet (the id is the store's key).
pub open spec fn tag_answers(r: TagRunView, t: Map<Seq<char>, Seq<char>>, e: TagEventView) -> bool {
    let name = r.names[r.index as int];
    &&& r.creating is None ==> match e {
        TagEventView::Found(x) => x == if t.contains_key(name) { Some(t[name]) } else { None },
        _ => true,
    }
    &&& r.creating matches Some(id) ==> (e is Created ==> id_unused(t, id))
}

/// The table after the action that the run was waiting on ended with `e`.
pub open spec fn tag_outcome(r: TagRunView, t: Map<Seq<char>, Seq<char>>, e: TagEventView) -> Map<Seq<char>, Seq<char>> {
    match (r.creating, e) {
        (Some(id), TagEventView::Created) => t.insert(r.names[r.index as int], id),
        _ => t,
    }
}

/// Each step of a run follows `ensure_all` over the names handled so far; a run
/// that finishes returns exactly what `ensure_all` returns for all of them.
pub proof fn lemma_tag_step(
    r: TagRunView,
    t0: Map<Seq<char>, Seq<char>>,
    t: Map<Seq<char>, Seq<char>>,
    e: TagEventView,
    fresh: Seq<char>,
)
    requires
        tag_inv(r, t0, t),
        tag_answers(r, t, e),
    ensures
        ({
            let (r2, a) = tag_step(r, e, fresh);
            let t1 = tag_outcome(r, t, e);
            match a {
                TagActionView::Finish(ids) => ensure_all(t0, r.names, ids) == (t1, ids) && ids_unique(t1),
                TagActionView::Fail => true,
                _ => tag_inv(r2, t0, t1),
            }
        }),
{
    let (r2, a) = tag_step(r, e, fresh);
    let t1 = tag_outcome(r, t, e);
    let k = r.index as int;
    let name = r.names[k];
    let p = r.names.subrange(0, k);
    let upto = r.names.subrange(0, k + 1);
    assert(upto.drop_last() =~= p);
    let ok = match r.creating {
        None => e is Found && e->Found_0 is Some,
        Some(_) => e is Created,
    };
    if ok {
        let id = match r.creating {
            None => e->Found_0->Some_0,
            Some(x) => x,
        };
        let ids = r.ids.push(id);
        if r.creating is Some {
            assert forall|a: Seq<char>, b: Seq<char>| #[trigger] t1.contains_key(a) && #[trigger] t1.contains_key(b)
                && t1[a] == t1[b] implies a == b by {
                if a != name && b != name {
                    assert(t.contains_key(a) && t.contains_key(b));
                } else if a == name && b != name {
                    assert(t.contains_key(b));
                } else if b == name && a != name {
                    assert(t.contains_key(a));
                }
            }
        }
        lemma_ensure_all_facts(t0, p, r.ids);
        lemma_ensure_all_fresh_prefix(t0, p, ids, r.ids);
        assert(ensure_all(t0, upto, ids) == (t1, ids));
        if k + 1 == r.names.len() {
            assert(upto =~= r.names);
        }
    }
}

/// The state in which a run over `names` starts; its first action looks up `names[0]`.
pub open spec fn tag_start(names: Seq<Seq<char>>) -> TagRunView {
    TagRunView { names, index: 0, ids: Seq::empty(), creating: None, done: false }
}

/// A run fed the outcomes `events` in order (each with the id a tag created at that
/// step gets), from the state `r` whose last action was `a`, on the table `t`: the
/// state, the table and the last action at the end.
pub open spec fn tag_replay(
    r: TagRunView,
    t: Map<Seq<char>, Seq<char>>,
    a: TagActionView,
    events: Seq<(TagEventView, Seq<char>)>,
) -> (TagRunView, Map<Seq<char>, Seq<char>>, TagActionView)
    decreases events.len(),
{
    if events.len() == 0 || r.done {
        (r, t, a)
    } else {
        let (r2, a2) = tag_step(r, events[0].0, events[0].1);
        tag_replay(r2, tag_outcome(r, t, events[0].0), a2, events.drop_first())
    }
}

/// Every lookup in `events` reports the table truthfully.
pub open spec fn tag_truthful(r: TagRunView, t: Map<Seq<char>, Seq<char>>, events: Seq<(TagEventView, Seq<char>)>) -> bool
    decreases events.len(),
{
    events.len() == 0 || r.done || (tag_answers(r, t, events[0].0) && tag_truthful(
        tag_step(r, events[0].0, events[0].1).0,
        tag_outcome(r, t, events[0].0),
        events.drop_first(),
    ))
}

proof fn lemma_tag_replay(
    r: TagRunView,
    t0: Map<Seq<char>, Seq<char>>,
    t: Map<Seq<char>, Seq<char>>,
    a: TagActionView,
    events: Seq<(TagEventView, Seq<char>)>,
)
    requires
        tag_inv(r, t0, t),
        tag_truthful(r, t, events),
        !(a is Finish || a is Fail),
    ensures
        ({
            let (r2, t2, a2) = tag_replay(r, t, a, events);
            a2 matches TagActionView::Finish(ids) ==> ensure_all(t0, r.names, ids) == (t2, ids) && ids_unique(t2)
        }),
    decreases events.len(),
{
    if events.len() > 0 {
        let (e, f) = events[0];
        let (r2, a2) = tag_step(r, e, f);
        let t2 = tag_outcome(r, t, e);
        lemma_tag_step(r, t0, t, e, f);
        if !(a2 is Finish || a2 is Fail) {
            lemma_tag_replay(r2, t0, t2, a2, events.drop_first());
        } else {
            assert(r2.done);
            assert(tag_replay(r2, t2, a2, events.drop_first()) == (r2, t2, a2));
        }
    }
}

/// Tag idempotence over whole runs. Ensure the tags `names` on the table `t0`, then
/// ensure the same names again on the table that the first run left, each run fed
/// truthful lookups and ending in `Finish`. Both runs return the same ids, the second
/// leaves the table exactly as the first left it, each name has one tag, tags that
/// existed before keep their ids, each id is the id of its name, and two names get the
/// same id exactly when they are the same name.
pub proof fn lemma_ensure_tags_twice(
    names: Seq<Seq<char>>,
    t0: Map<Seq<char>, Seq<char>>,
    first: Seq<(TagEventView, Seq<char>)>,
    second: Seq<(TagEventView, Seq<char>)>,
)
    requires
        names.len() > 0,
        ids_unique(t0),
        tag_truthful(tag_start(names), t0, first),
        tag_replay(tag_start(names), t0, TagActionView::LookUp(names[0]), first).2 is Finish,
        tag_truthful(tag_start(names), tag_replay(tag_start(names), t0, TagActionView::LookUp(names[0]), first).1, second),
        tag_replay(
            tag_start(names),
            tag_replay(tag_start(names), t0, TagActionView::LookUp(names[0]), first).1,
            TagActionView::LookUp(names[0]),
            second,
        ).2 is Finish,
    ensures
        ({
            let (_, t1, a1) = tag_replay(tag_start(names), t0, TagActionView::LookUp(names[0]), first);
            let (_, t2, a2) = tag_replay(tag_start(names), t1, TagActionView::LookUp(names[0]), second);
            &&& a2 == a1
            &&& t2 == t1
            &&& t1.dom() == t0.dom() + names.to_set()
            &&& forall|k: Seq<char>| #[trigger] t0.contains_key(k) ==> t1[k] == t0[k]
            &&& forall|i: int| 0 <= i < names.len() ==> #[trigger] a1->Finish_0[i] == t1[names[i]]
            &&& forall|i: int, j: int| 0 <= i < names.len() && 0 <= j < names.len() ==> (#[trigger] a1->Finish_0[i]
                == #[trigger] a1->Finish_0[j] <==> names[i] == names[j])
        }),
{
    let start = tag_start(names);
    let (_, t1, a1) = tag_replay(start, t0, TagActionView::LookUp(names[0]), first);
    assert(names.subrange(0, 0) =~= Seq::<Seq<char>>::empty());
    assert(tag_inv(start, t0, t0));
    lemma_tag_replay(start, t0, t0, TagActionView::LookUp(names[0]), first);
    let ids1 = a1->Finish_0;
    assert(tag_inv(start, t1, t1));
    lemma_tag_replay(start, t1, t1, TagActionView::LookUp(names[0]), second);
    let (_, t2, a2) = tag_replay(start, t1, TagActionView::LookUp(names[0]), second);
    let ids2 = a2->Finish_0;
    lemma_ensure_tags_idempotent(t0, names, ids1, ids2);
    lemma_ensure_all_facts(t0, names, ids1);
    assert forall|i: int, j: int| 0 <= i < names.len() && 0 <= j < names.len() implies (#[trigger] ids1[i]
        == #[trigger] ids1[j] <==> names[i] == names[j]) by {
        assert(t1.contains_key(names[i]) && t1.contains_key(names[j]));
    }
}

impl TagEnsure {
    /// The time at which created tags are stamped.
    pub closed spec fn now(&self) -> Seq<char> {
        self.now@
    }

    pub closed spec fn inv(&self) -> bool {
        &&& !self.done
        &&& self.index < self.names@.len()
    }

    pub closed spec fn finished(&self) -> bool {
        self.done
    }

    /// Starts ensuring the tags `names`, created at time `now`; with no names it finishes
    /// at once with no ids.
    pub fn begin(names: Vec<String>, now: String) -> (r: (TagEnsure, TagAction))
        ensures
            r.0.now() == now@,
            names@.len() == 0 ==> r.0.finished() && r.1.view() == TagActionView::Finish(Seq::empty()),
            names@.len() > 0 ==> r.0@ == tag_start(str_views(names@)) && r.1.view() == TagActionView::LookUp(
                names@[0]@,
            ) && r.0.inv(),
    {
        if names.len() == 0 {
            let run = TagEnsure { names, now, index: 0, ids: Vec::new(), creating: None, done: true };
            let ids: Vec<String> = Vec::new();
            assert(str_views(ids@) =~= Seq::<Seq<char>>::empty());
            return (run, TagAction::Finish { ids });
        }
        let first = names[0].clone();
        let run = TagEnsure { names, now, index: 0, ids: Vec::new(), creating: None, done: false };
        assert(str_views(run.ids@) =~= Seq::<Seq<char>>::empty());
        (run, TagAction::LookUp { name: first })
    }

    fn advance_exec(&mut self, id: String) -> (a: TagAction)
        requires
            old(self).inv(),
        ensures
            (final(self)@, a.view()) == advance(old(self)@, id@),
            final(self).inv() || final(self).finished(),
            final(self).now() == old(self).now(),
    {
        let n: usize = self.names.len();
        self.ids.push(id);
        self.creating = None;
        self.index = self.index + 1;
        assert(str_views(self.ids@) =~= str_views(old(self).ids@).push(id@));
        if self.index == n {
            self.done = true;
            let mut ids: Vec<String> = Vec::new();
            let mut k: usize = 0;
            while k < self.ids.len()
                invariant
                    k <= self.ids@.len(),
                    ids@.len() == k,
                    forall|j: int| 0 <= j < k ==> #[trigger] ids@[j]@ == self.ids@[j]@,
                decreases self.ids@.len() - k,
            {
                ids.push(self.ids[k].clone());
                k = k + 1;
            }
            assert(str_views(ids@) =~= str_views(self.ids@));
            TagAction::Finish { ids }
        } else {
            TagAction::LookUp { name: self.names[self.index].clone() }
        }
    }

    /// Takes the outcome of the last action and returns the next one.
    pub fn step(&mut self, event: TagEvent) -> (a: TagAction)
        requires
            old(self).inv(),
        ensures
            (final(self)@, a.view()) == tag_step(
                old(self)@,
                event.view(),
                match a {
                    TagAction::Create { tag } => tag.id@,
                    _ => Seq::empty(),
                },
            ),
            final(self).inv() || final(self).finished(),
            final(self).now() == old(self).now(),
            a matches TagAction::Create { tag } ==> tag.color@ == tag_color(tag.name@) && tag.created_at@
                == old(self).now() && tag.updated_at@ == old(self).now() && tag.id@.len() == 36,
    {
        match self.creating.take() {
            None => match event {
                TagEvent::Found { id: Some(id) } => self.advance_exec(id),
                TagEvent::Found { id: None } => {
                    let tag = new_tag_row(self.names[self.index].as_str(), self.now.as_str());
                    self.creating = Some(tag.id.clone());
                    TagAction::Create { tag }
                },
                TagEvent::Created => {
                    self.done = true;
                    TagAction::Fail { message: "no lookup result".to_owned() }
                },
                TagEvent::Failed { message } => {
                    self.done = true;
                    TagAction::Fail { message }
                },
            },
            Some(id) => match event {
                TagEvent::Created => self.advance_exec(id),
                TagEvent::Failed { message } => {
                    self.done = true;
                    self.creating = Some(id);
                    TagAction::Fail { message }
                },
                TagEvent::Found { .. } => {
                    self.done = true;
                    self.creating = Some(id);
                    TagAction::Fail { message: "no insert result".to_owned() }
                },
            },
        }
    }
}

} // verus!
