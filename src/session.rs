//! The search session: a universe of known items, an initial search that
//! ranks the whole universe, and subsearches that rank within an earlier
//! result only.
//!
//! Loading items and launching applications happen outside: the session
//! takes what the items source returned, and answers an activation with the
//! target to launch.

use vstd::prelude::*;
use crate::matcher::{pick_labels, score_uris, uri_keys};
use crate::ranking::{is_ranking, labelled, rank_order, ranked};
use crate::describe::{name_and_description, name_and_description_of_uri};

verus! {

/// A launchable search result.
pub struct Item {
    /// Identifies the item within one universe.
    pub id: String,
    /// A label for people.
    pub name: String,
    /// The URI or path to open the application with.
    pub target: String,
}

/// What a result looks like in the search overlay.
#[derive(Debug)]
pub struct ResultMeta {
    pub id: String,
    pub name: String,
    pub description: String,
    /// The application's icon, where it has one.
    pub icon: Option<String>,
}

/// Why the items source could not produce a universe.
#[derive(Debug)]
pub enum SourceError {
    /// The backing store does not exist.
    NotFound(String),
    /// The backing store holds data that cannot be read.
    Parse(String),
    /// Reading the backing store failed.
    Io(String),
}

/// Why an application could not be launched.
#[derive(Debug)]
pub enum LaunchError {
    /// No application to launch was found.
    ApplicationNotFound(String),
    /// Starting the process failed.
    SpawnFailed(String),
}

/// Why an activation failed.
#[derive(Debug)]
pub enum ActivationError {
    /// No item of the current universe has the identifier.
    NotFound(String),
    /// The launcher failed.
    Launch(LaunchError),
}

/// What to launch: the application with a target, or the bare application.
#[derive(Debug)]
pub struct Launch {
    pub target: Option<String>,
}

/// The position of the item with identifier `id` in `u`, or -1; where
/// identifiers repeat, the last one.
pub open spec fn position_of(u: Seq<Item>, id: Seq<char>) -> int
    decreases u.len(),
{
    if u.len() == 0 {
        -1
    } else if u.last().id@ == id {
        u.len() - 1
    } else {
        position_of(u.drop_last(), id)
    }
}

/// No two items of `u` share an identifier.
pub open spec fn unique_ids(u: Seq<Item>) -> bool {
    forall|i: int, j: int| 0 <= i < j < u.len() ==> u[i].id@ != u[j].id@
}

/// `u` after inserting `it`: an item of the same identifier is replaced in
/// place, otherwise `it` goes last.
pub open spec fn insert_item(u: Seq<Item>, it: Item) -> Seq<Item> {
    let p = position_of(u, it.id@);
    if p >= 0 {
        u.update(p, it)
    } else {
        u.push(it)
    }
}

/// The universe that the items, inserted in order, make up.
pub open spec fn universe_of(items: Seq<Item>) -> Seq<Item>
    decreases items.len(),
{
    if items.len() == 0 {
        Seq::empty()
    } else {
        insert_item(universe_of(items.drop_last()), items.last())
    }
}

/// The items of `u` that the identifiers name, in the order of `ids`;
/// identifiers unknown to `u` are skipped.
pub open spec fn candidates_for(u: Seq<Item>, ids: Seq<String>) -> Seq<Item>
    decreases ids.len(),
{
    if ids.len() == 0 {
        Seq::empty()
    } else {
        let c = candidates_for(u, ids.drop_last());
        let p = position_of(u, ids.last()@);
        if p >= 0 {
            c.push(u[p])
        } else {
            c
        }
    }
}

/// The targets of the items.
pub open spec fn targets_of(items: Seq<Item>) -> Seq<String> {
    items.map(|i: int, it: Item| it.target)
}

/// The identifiers of the items.
pub open spec fn ids_of(items: Seq<Item>) -> Seq<String> {
    items.map(|i: int, it: Item| it.id)
}

/// `r` lists the identifiers of the items whose targets match the terms,
/// best score first, equal scores in the order of `items`.
pub open spec fn search_result(items: Seq<Item>, terms: Seq<String>, r: Seq<String>) -> bool {
    ranked(uri_keys(targets_of(items), terms), ids_of(items), r)
}

/// The items of a universe, or none where no universe is loaded.
pub open spec fn known(s: Option<Seq<Item>>) -> Seq<Item> {
    match s {
        Some(u) => u,
        None => Seq::empty(),
    }
}

/// A position found is a position of `u`, and its item has the identifier.
pub proof fn lemma_position_of(u: Seq<Item>, id: Seq<char>)
    ensures
        -1 <= position_of(u, id) < u.len(),
        position_of(u, id) >= 0 ==> u[position_of(u, id)].id@ == id,
        position_of(u, id) == -1 ==> forall|i: int| 0 <= i < u.len() ==> u[i].id@ != id,
    decreases u.len(),
{
    if u.len() > 0 && u.last().id@ != id {
        lemma_position_of(u.drop_last(), id);
        assert forall|i: int| 0 <= i < u.len() - 1 implies u[i] == u.drop_last()[i] by {}
    }
}

/// The position of the item with identifier `id` in `u`.
fn find_position(u: &Vec<Item>, id: &String) -> (r: Option<usize>)
    ensures
        r matches Some(p) ==> p as int == position_of(u@, id@),
        r is None ==> position_of(u@, id@) == -1,
{
    let mut n: usize = u.len();
    assert(u@.take(n as int) =~= u@);
    while n > 0
        invariant
            n <= u@.len(),
            position_of(u@, id@) == position_of(u@.take(n as int), id@),
        decreases n,
    {
        assert(u@.take(n as int).drop_last() =~= u@.take(n - 1));
        if u[n - 1].id == *id {
            return Some(n - 1);
        }
        n = n - 1;
    }
    None
}

/// A copy of an item.
fn copy_item(it: &Item) -> (r: Item)
    ensures
        r == *it,
{
    Item { id: it.id.clone(), name: it.name.clone(), target: it.target.clone() }
}

/// The universe that the items make up, inserted in order.
pub fn build_universe(items: &Vec<Item>) -> (u: Vec<Item>)
    ensures
        u@ == universe_of(items@),
{
    let mut u: Vec<Item> = Vec::new();
    let mut k: usize = 0;
    while k < items.len()
        invariant
            k <= items@.len(),
            u@ == universe_of(items@.take(k as int)),
        decreases items@.len() - k,
    {
        assert(items@.take(k + 1).drop_last() =~= items@.take(k as int));
        let it = copy_item(&items[k]);
        match find_position(&u, &it.id) {
            Some(p) => {
                proof {
                    lemma_position_of(u@, it.id@);
                }
                u.set(p, it);
            },
            None => {
                u.push(it);
            },
        }
        k = k + 1;
    }
    assert(items@.take(k as int) =~= items@);
    u
}

/// Inserting keeps identifiers unique.
pub proof fn lemma_insert_item_unique(u: Seq<Item>, it: Item)
    requires
        unique_ids(u),
    ensures
        unique_ids(insert_item(u, it)),
{
    lemma_position_of(u, it.id@);
}

/// A universe never holds two items of one identifier.
pub proof fn lemma_universe_unique(items: Seq<Item>)
    ensures
        unique_ids(universe_of(items)),
    decreases items.len(),
{
    if items.len() > 0 {
        lemma_universe_unique(items.drop_last());
        lemma_insert_item_unique(universe_of(items.drop_last()), items.last());
    }
}

/// The targets and the identifiers of the items, in order.
fn targets_and_ids(items: &Vec<Item>) -> (r: (Vec<String>, Vec<String>))
    ensures
        r.0@ == targets_of(items@),
        r.1@ == ids_of(items@),
{
    let mut targets: Vec<String> = Vec::new();
    let mut ids: Vec<String> = Vec::new();
    let mut k: usize = 0;
    while k < items.len()
        invariant
            k <= items@.len(),
            targets@ == targets_of(items@).take(k as int),
            ids@ == ids_of(items@).take(k as int),
        decreases items@.len() - k,
    {
        targets.push(items[k].target.clone());
        ids.push(items[k].id.clone());
        assert(targets@ =~= targets_of(items@).take(k + 1));
        assert(ids@ =~= ids_of(items@).take(k + 1));
        k = k + 1;
    }
    assert(targets_of(items@).take(k as int) =~= targets_of(items@));
    assert(ids_of(items@).take(k as int) =~= ids_of(items@));
    (targets, ids)
}

/// The identifiers of the items whose targets match all of `terms`, best
/// score first, equal scores in the order of `items`.
pub fn search_items(items: &Vec<Item>, terms: &Vec<String>) -> (r: Vec<String>)
    ensures
        search_result(items@, terms@, r@),
{
    let (targets, ids) = targets_and_ids(items);
    let keys = score_uris(&targets, terms);
    let order = rank_order(&keys);
    let ghost o = order@.map(|a: int, i: usize| i as int);
    assert forall|a: int| 0 <= a < order@.len() implies #[trigger] order@[a] < ids@.len() by {
        assert(o[a] == order@[a] as int);
    }
    let r = pick_labels(&ids, &order);
    assert(is_ranking(uri_keys(targets_of(items@), terms@), o) && labelled(ids_of(items@), o, r@));
    r
}

/// The items of `u` that the identifiers name, in the order of `ids`.
fn candidates(u: &Vec<Item>, ids: &Vec<String>) -> (r: Vec<Item>)
    ensures
        r@ == candidates_for(u@, ids@),
{
    let mut r: Vec<Item> = Vec::new();
    let mut k: usize = 0;
    while k < ids.len()
        invariant
            k <= ids@.len(),
            r@ == candidates_for(u@, ids@.take(k as int)),
        decreases ids@.len() - k,
    {
        assert(ids@.take(k + 1).drop_last() =~= ids@.take(k as int));
        match find_position(u, &ids[k]) {
            Some(p) => {
                proof {
                    lemma_position_of(u@, ids@[k as int]@);
                }
                r.push(copy_item(&u[p]));
            },
            None => {},
        }
        k = k + 1;
    }
    assert(ids@.take(k as int) =~= ids@);
    r
}

impl Item {
    /// The item of a workspace URI or path: identified by it, named by its
    /// last segment, and opened with it.
    pub fn from_uri(uri: String) -> (r: Item)
        ensures
            r.id == uri,
            r.target == uri,
            r.name@ == name_and_description(uri@).0,
    {
        let (name, _description) = name_and_description_of_uri(uri.as_str());
        Item { id: uri.clone(), name, target: uri }
    }
}

/// The items of workspace URIs or paths, in order.
pub fn items_from_uris(uris: Vec<String>) -> (r: Vec<Item>)
    ensures
        r@.len() == uris@.len(),
        forall|k: int| 0 <= k < r@.len() ==> (#[trigger] r@[k]).id == uris@[k] && r@[k].target == uris@[k]
            && r@[k].name@ == name_and_description(uris@[k]@).0,
{
    let mut r: Vec<Item> = Vec::new();
    let mut k: usize = 0;
    while k < uris.len()
        invariant
            k <= uris@.len(),
            r@.len() == k,
            forall|j: int| 0 <= j < k ==> (#[trigger] r@[j]).id == uris@[j] && r@[j].target == uris@[j]
                && r@[j].name@ == name_and_description(uris@[j]@).0,
        decreases uris@.len() - k,
    {
        r.push(Item::from_uri(uris[k].clone()));
        k = k + 1;
    }
    r
}

/// The display record of an item, with the application's icon.
pub open spec fn meta_of(it: Item, icon: Option<String>, m: ResultMeta) -> bool {
    &&& m.id == it.id
    &&& m.name == it.name
    &&& m.description@ == name_and_description(it.target@).1
    &&& m.icon == icon
}

/// A copy of an optional string.
fn copy_icon(icon: &Option<String>) -> (r: Option<String>)
    ensures
        r == *icon,
{
    match icon {
        Some(i) => Some(i.clone()),
        None => None,
    }
}

/// A search session of one application: no universe until the first
/// initial search, then the universe that the items source last returned.
pub struct SearchSession {
    universe: Option<Vec<Item>>,
}

impl View for SearchSession {
    type V = Option<Seq<Item>>;

    closed spec fn view(&self) -> Option<Seq<Item>> {
        match self.universe {
            Some(u) => Some(u@),
            None => None,
        }
    }
}

impl SearchSession {
    /// Identifiers are unique within the universe.
    #[verifier::type_invariant]
    spec fn wf(&self) -> bool {
        match self.universe {
            Some(u) => unique_ids(u@),
            None => true,
        }
    }

    /// A session without a universe.
    pub fn new() -> (s: Self)
        ensures
            s@ is None,
    {
        SearchSession { universe: None }
    }

    /// Whether the next initial search needs items from the source: true
    /// exactly where no universe is loaded.
    pub fn needs_source(&self) -> (r: bool)
        ensures
            r == (self@ is None),
    {
        self.universe.is_none()
    }

    /// Drops the universe, so that the next initial search loads anew.
    pub fn invalidate(&mut self)
        ensures
            final(self)@ == invalidated(old(self)@),
    {
        *self = SearchSession { universe: None };
    }

    /// Ranks the whole universe for the terms.
    ///
    /// `fetched` is what the items source returned, where it was asked; it
    /// must be asked where no universe is loaded. Fetched items replace the
    /// universe, an item replacing an earlier one of the same identifier in
    /// place; a source error is returned and changes nothing.
    pub fn initial_search(
        &mut self,
        fetched: Option<Result<Vec<Item>, SourceError>>,
        terms: &Vec<String>,
    ) -> (r: Result<Vec<String>, SourceError>)
        requires
            fetched is Some || old(self)@ is Some,
        ensures
            initial_outcome(old(self)@, fetched_view(fetched), terms@, result_view(r), final(self)@),
    {
        match fetched {
            Some(Err(e)) => Err(e),
            Some(Ok(items)) => {
                let u = build_universe(&items);
                proof {
                    lemma_universe_unique(items@);
                }
                let r = search_items(&u, terms);
                *self = SearchSession { universe: Some(u) };
                Ok(r)
            },
            None => match &self.universe {
                Some(u) => Ok(search_items(u, terms)),
                None => Ok(Vec::new()),
            },
        }
    }

    /// What to launch for the item `id`: its target, or `NotFound` where the
    /// universe has no such item.
    pub fn activate(&self, id: &String, terms: &Vec<String>, timestamp: u32) -> (r: Result<
        Launch,
        ActivationError,
    >)
        ensures
            r is Ok <==> position_of(known(self@), id@) >= 0,
            r matches Ok(l) ==> l.target == Some(known(self@)[position_of(known(self@), id@)].target),
            r matches Err(e) ==> (e matches ActivationError::NotFound(m) && m == *id),
    {
        let empty: Vec<Item> = Vec::new();
        let u = match &self.universe {
            Some(u) => u,
            None => &empty,
        };
        match find_position(u, id) {
            Some(p) => {
                proof {
                    lemma_position_of(u@, id@);
                }
                Ok(Launch { target: Some(u[p].target.clone()) })
            },
            None => Err(ActivationError::NotFound(id.clone())),
        }
    }

    /// What to launch to open the application itself: no target.
    pub fn launch_default(&self, terms: &Vec<String>, timestamp: u32) -> (r: Launch)
        ensures
            r.target is None,
    {
        Launch { target: None }
    }

    /// The display records of the items that the identifiers name, in the
    /// order of `ids`; identifiers unknown to the universe are skipped.
    pub fn get_result_metadata(&self, ids: &Vec<String>, icon: &Option<String>) -> (r: Vec<ResultMeta>)
        ensures
            r@.len() == candidates_for(known(self@), ids@).len(),
            forall|k: int| 0 <= k < r@.len() ==> meta_of(candidates_for(known(self@), ids@)[k], *icon, #[trigger] r@[k]),
    {
        let empty: Vec<Item> = Vec::new();
        let u = match &self.universe {
            Some(u) => u,
            None => &empty,
        };
        let c = candidates(u, ids);
        let mut r: Vec<ResultMeta> = Vec::new();
        let mut k: usize = 0;
        while k < c.len()
            invariant
                k <= c@.len(),
                r@.len() == k,
                forall|j: int| 0 <= j < k ==> meta_of(c@[j], *icon, #[trigger] r@[j]),
            decreases c@.len() - k,
        {
            let (_name, description) = name_and_description_of_uri(c[k].target.as_str());
            r.push(ResultMeta {
                id: c[k].id.clone(),
                name: c[k].name.clone(),
                description,
                icon: copy_icon(icon),
            });
            k = k + 1;
        }
        r
    }

    /// Ranks the identifiers of the items in the given previous result,
    /// without loading anything.
    ///
    /// Only items of the current universe whose identifier is in
    /// `previous_ids` are candidates, in the order of `previous_ids`.
    pub fn subsearch(&self, previous_ids: &Vec<String>, terms: &Vec<String>) -> (r: Vec<String>)
        ensures
            search_result(candidates_for(known(self@), previous_ids@), terms@, r@),
            forall|a: int| 0 <= a < r@.len() ==> names(previous_ids@, (#[trigger] r@[a])@),
    {
        let r = match &self.universe {
            Some(u) => {
                let c = candidates(u, previous_ids);
                search_items(&c, terms)
            },
            None => {
                let c: Vec<Item> = Vec::new();
                proof {
                    lemma_candidates_of_nothing(previous_ids@);
                }
                search_items(&c, terms)
            },
        };
        proof {
            lemma_subsearch_narrows(self@, previous_ids@, terms@, r@);
        }
        r
    }
}

/// What the items source returned, as values.
pub open spec fn fetched_view(f: Option<Result<Vec<Item>, SourceError>>) -> Option<Result<Seq<Item>, SourceError>> {
    match f {
        Some(Ok(items)) => Some(Ok(items@)),
        Some(Err(e)) => Some(Err(e)),
        None => None,
    }
}

/// A search result as values.
pub open spec fn result_view(r: Result<Vec<String>, SourceError>) -> Result<Seq<String>, SourceError> {
    match r {
        Ok(ids) => Ok(ids@),
        Err(e) => Err(e),
    }
}

/// An initial search from state `before`, given what the items source
/// returned (`None`: it was not asked), answers `r` and leaves `after`.
///
/// A source error is answered as it is and leaves the state alone; fetched
/// items replace the universe; without fetched items the universe stays.
/// The answer ranks the whole universe.
pub open spec fn initial_outcome(
    before: Option<Seq<Item>>,
    fetched: Option<Result<Seq<Item>, SourceError>>,
    terms: Seq<String>,
    r: Result<Seq<String>, SourceError>,
    after: Option<Seq<Item>>,
) -> bool {
    match fetched {
        Some(Err(e)) => r == Err::<Seq<String>, SourceError>(e) && after == before,
        Some(Ok(items)) => after == Some(universe_of(items)) && (r matches Ok(ids) && search_result(
            universe_of(items),
            terms,
            ids,
        )),
        None => after == before && (r matches Ok(ids) && search_result(known(before), terms, ids)),
    }
}

/// The state after an invalidation.
pub open spec fn invalidated(s: Option<Seq<Item>>) -> Option<Seq<Item>> {
    None
}

/// Nothing is found in an empty universe.
pub proof fn lemma_candidates_of_nothing(ids: Seq<String>)
    ensures
        candidates_for(Seq::<Item>::empty(), ids) == Seq::<Item>::empty(),
    decreases ids.len(),
{
    if ids.len() > 0 {
        lemma_candidates_of_nothing(ids.drop_last());
    }
}

/// One of `ids` is `id`.
pub open spec fn names(ids: Seq<String>, id: Seq<char>) -> bool {
    exists|j: int| 0 <= j < ids.len() && (#[trigger] ids[j])@ == id
}

/// Every candidate for a list of identifiers has one of them.
proof fn lemma_candidates_named(u: Seq<Item>, ids: Seq<String>)
    ensures
        forall|c: int| 0 <= c < candidates_for(u, ids).len() ==> names(ids, (#[trigger] candidates_for(u, ids)[c]).id@),
    decreases ids.len(),
{
    if ids.len() > 0 {
        let prev = ids.drop_last();
        lemma_candidates_named(u, prev);
        lemma_position_of(u, ids.last()@);
        let cs = candidates_for(u, ids);
        assert forall|c: int| 0 <= c < cs.len() implies names(ids, (#[trigger] cs[c]).id@) by {
            if c < candidates_for(u, prev).len() {
                assert(names(prev, candidates_for(u, prev)[c].id@));
                let j = choose|j: int| 0 <= j < prev.len() && (#[trigger] prev[j])@ == candidates_for(u, prev)[c].id@;
                assert(ids[j] == prev[j]);
            } else {
                assert(ids[ids.len() - 1]@ == cs[c].id@);
            }
        }
    }
}

/// A subsearch only narrows: every identifier that it returns is one of the
/// previous identifiers.
pub proof fn lemma_subsearch_narrows(s: Option<Seq<Item>>, previous_ids: Seq<String>, terms: Seq<String>, r: Seq<String>)
    requires
        search_result(candidates_for(known(s), previous_ids), terms, r),
    ensures
        forall|a: int| 0 <= a < r.len() ==> names(previous_ids, (#[trigger] r[a])@),
{
    let cs = candidates_for(known(s), previous_ids);
    let ks = uri_keys(targets_of(cs), terms);
    let order = choose|o: Seq<int>| #[trigger] is_ranking(ks, o) && labelled(ids_of(cs), o, r);
    lemma_candidates_named(known(s), previous_ids);
    assert forall|a: int| 0 <= a < r.len() implies names(previous_ids, (#[trigger] r[a])@) by {
        let c = order[a];
        assert(r[a] == ids_of(cs)[c]);
        assert(names(previous_ids, cs[c].id@));
    }
}

/// Invalidating twice is invalidating once: the following initial search
/// answers the same and leaves the same state.
pub proof fn lemma_invalidate_idempotent(
    s: Option<Seq<Item>>,
    fetched: Option<Result<Seq<Item>, SourceError>>,
    terms: Seq<String>,
    r1: Result<Seq<String>, SourceError>,
    after1: Option<Seq<Item>>,
    r2: Result<Seq<String>, SourceError>,
    after2: Option<Seq<Item>>,
)
    requires
        initial_outcome(invalidated(invalidated(s)), fetched, terms, r1, after1),
        initial_outcome(invalidated(s), fetched, terms, r2, after2),
    ensures
        invalidated(invalidated(s)) == invalidated(s),
        r1 == r2,
        after1 == after2,
{
    lemma_initial_outcome_unique(invalidated(s), fetched, terms, r1, after1, r2, after2);
}

/// An initial search has exactly one outcome from a given state.
pub proof fn lemma_initial_outcome_unique(
    s: Option<Seq<Item>>,
    fetched: Option<Result<Seq<Item>, SourceError>>,
    terms: Seq<String>,
    r1: Result<Seq<String>, SourceError>,
    after1: Option<Seq<Item>>,
    r2: Result<Seq<String>, SourceError>,
    after2: Option<Seq<Item>>,
)
    requires
        initial_outcome(s, fetched, terms, r1, after1),
        initial_outcome(s, fetched, terms, r2, after2),
    ensures
        r1 == r2,
        after1 == after2,
{
    let items = match fetched {
        Some(Ok(items)) => universe_of(items),
        _ => known(s),
    };
    if !(fetched matches Some(Err(_))) {
        let ids1 = r1->Ok_0;
        let ids2 = r2->Ok_0;
        lemma_search_result_unique(items, terms, ids1, ids2);
    }
}

/// A search over given items has exactly one result.
pub proof fn lemma_search_result_unique(items: Seq<Item>, terms: Seq<String>, r1: Seq<String>, r2: Seq<String>)
    requires
        search_result(items, terms, r1),
        search_result(items, terms, r2),
    ensures
        r1 == r2,
{
    let ks = uri_keys(targets_of(items), terms);
    let o1 = choose|o: Seq<int>| #[trigger] is_ranking(ks, o) && labelled(ids_of(items), o, r1);
    let o2 = choose|o: Seq<int>| #[trigger] is_ranking(ks, o) && labelled(ids_of(items), o, r2);
    crate::ranking::lemma_ranking_unique(ks, o1, o2);
    assert forall|a: int| 0 <= a < r1.len() implies r1[a] == r2[a] by {
        assert(r1[a] == ids_of(items)[o1[a]]);
        assert(r2[a] == ids_of(items)[o2[a]]);
    }
    assert(r1 =~= r2);
}

} // verus!
