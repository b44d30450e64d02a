//! The project store: an ordered collection of projects whose
//! identifiers are unique, with append, point lookup and point update.

use vstd::prelude::*;

verus! {

/// Mathematical model of a single project.
pub ghost struct ProjectView {
    pub id: u128,
    pub name: Seq<char>,
    pub description: Seq<char>,
}

/// A named unit of work with an identifier that never changes after
/// creation.
pub struct Project {
    pub id: u128,
    pub name: String,
    pub description: String,
}

impl Project {
    pub open spec fn view(self) -> ProjectView {
        ProjectView { id: self.id, name: self.name@, description: self.description@ }
    }
}

impl Clone for Project {
    fn clone(&self) -> (r: Self)
        ensures
            r@ == self@,
    {
        Project {
            id: self.id,
            name: self.name.clone(),
            description: self.description.clone(),
        }
    }
}

/// The identifiers of a sequence of projects, in store order.
pub open spec fn ids_of(ps: Seq<ProjectView>) -> Seq<u128> {
    ps.map_values(|p: ProjectView| p.id)
}

/// No two projects of the sequence share an identifier.
pub open spec fn ids_unique(ps: Seq<ProjectView>) -> bool {
    forall|i: int, j: int|
        0 <= i < ps.len() && 0 <= j < ps.len() && i != j ==> ps[i].id != ps[j].id
}

/// Unique identifiers make an identifier sequence without duplicates.
pub proof fn lemma_ids_no_duplicates(ps: Seq<ProjectView>)
    requires
        ids_unique(ps),
    ensures
        ids_of(ps).no_duplicates(),
{
}

/// The set of `u128` values strictly below `n` has exactly `n` elements.
proof fn lemma_u128_range_card(n: u128)
    ensures
        Set::new(|c: u128| c < n).finite(),
        Set::new(|c: u128| c < n).len() == n,
    decreases n,
{
    if n == 0 {
        assert(Set::new(|c: u128| c < 0) =~= Set::<u128>::empty());
    } else {
        let m = (n - 1) as u128;
        lemma_u128_range_card(m);
        assert(Set::new(|c: u128| c < n) =~= Set::new(|c: u128| c < m).insert(m));
    }
}

/// Pigeonhole: a sequence of fewer than `u128::MAX` identifiers cannot
/// contain every value up to its own length, so a free one exists.
proof fn lemma_free_id_below(ids: Seq<u128>)
    requires
        ids.len() < u128::MAX,
    ensures
        exists|c: u128| c <= ids.len() && !ids.contains(c),
{
    let n1 = (ids.len() + 1) as u128;
    if forall|c: u128| c < n1 ==> #[trigger] ids.contains(c) {
        let s = Set::new(|c: u128| c < n1);
        lemma_u128_range_card(n1);
        assert(s.subset_of(ids.to_set())) by {
            assert forall|c: u128| s.contains(c) implies ids.to_set().contains(c) by {
                assert(ids.contains(c));
            }
        }
        ids.lemma_cardinality_of_set();
        vstd::seq_lib::seq_to_set_is_finite(ids);
        vstd::set_lib::lemma_len_subset(s, ids.to_set());
        assert(false);
    } else {
        let c = choose|c: u128| c < n1 && !ids.contains(c);
        assert(c <= ids.len() && !ids.contains(c));
    }
}

/// The in-memory store: insertion order is kept for display, and no
/// two entries share an identifier.
pub struct ProjectStore {
    projects: Vec<Project>,
}

/// Relies on uuid::Uuid::new_v4 for a freshly drawn 128-bit identifier.
/// Nothing is promised of the value: callers must check it themselves.
#[verifier::external_body]
fn draw_id_candidate() -> u128 {
    uuid::Uuid::new_v4().as_u128()
}

impl ProjectStore {
    pub closed spec fn view(self) -> Seq<ProjectView> {
        self.projects@.map_values(|p: Project| p@)
    }

    /// The store's invariant: identifiers are unique.
    pub open spec fn wf(self) -> bool {
        ids_unique(self@)
    }

    /// An empty store.
    pub fn new() -> (r: Self)
        ensures
            r@ == Seq::<ProjectView>::empty(),
            r.wf(),
    {
        let r = ProjectStore { projects: Vec::new() };
        proof {
            assert(r@ =~= Seq::<ProjectView>::empty());
        }
        r
    }

    /// A store over the given projects; their identifiers must already
    /// be unique.
    pub fn from_projects(projects: Vec<Project>) -> (r: Self)
        requires
            ids_unique(projects@.map_values(|p: Project| p@)),
        ensures
            r@ == projects@.map_values(|p: Project| p@),
            r.wf(),
    {
        ProjectStore { projects }
    }

    /// The entry at a display position.
    pub fn nth(&self, i: usize) -> (p: &Project)
        requires
            i < self@.len(),
        ensures
            p@ == self@[i as int],
    {
        &self.projects[i]
    }

    pub fn len(&self) -> (n: usize)
        ensures
            n == self@.len(),
    {
        self.projects.len()
    }

    /// Whether some entry carries this identifier.
    pub fn contains_id(&self, id: u128) -> (r: bool)
        ensures
            r == ids_of(self@).contains(id),
    {
        let n = self.projects.len();
        let mut i: usize = 0;
        while i < n
            invariant
                n == self@.len(),
                0 <= i <= n,
                forall|k: int| 0 <= k < i ==> self@[k].id != id,
            decreases n - i,
        {
            if self.projects[i].id == id {
                proof {
                    assert(ids_of(self@)[i as int] == id);
                }
                return true;
            }
            i += 1;
        }
        proof {
            assert(forall|k: int| 0 <= k < ids_of(self@).len() ==> ids_of(self@)[k] != id);
        }
        false
    }

    /// Appends a new project under a freshly generated identifier,
    /// distinct from every identifier already in the store; the new
    /// entry becomes the last element.
    pub fn create(&mut self, name: &str, description: &str) -> (id: u128)
        requires
            old(self).wf(),
        ensures
            final(self).wf(),
            !ids_of(old(self)@).contains(id),
            final(self)@ == old(self)@.push(
                ProjectView { id: id, name: name@, description: description@ },
            ),
    {
        let mut id = draw_id_candidate();
        if self.contains_id(id) {
            id = self.find_free_id();
        }
        let p = Project { id, name: name.to_owned(), description: description.to_owned() };
        proof {
            assert(!ids_of(self@).contains(id));
            assert(forall|k: int| 0 <= k < self@.len() ==> ids_of(self@)[k] == self@[k].id);
        }
        self.projects.push(p);
        proof {
            let pre = old(self)@;
            assert(self@ =~= pre.push(
                ProjectView { id: id, name: name@, description: description@ },
            ));
            assert forall|k: int| 0 <= k < pre.len() implies pre[k].id != id by {
                assert(ids_of(pre)[k] == pre[k].id);
                if pre[k].id == id {
                    assert(ids_of(pre).contains(id));
                }
            }
            assert(ids_unique(self@));
        }
        id
    }

    /// Smallest identifier that no entry carries; by pigeonhole one
    /// always exists among the values up to the store's length.
    fn find_free_id(&self) -> (id: u128)
        ensures
            !ids_of(self@).contains(id),
    {
        let n_usize = self.projects.len();
        let n = n_usize as u128;
        let mut c: u128 = 0;
        while c <= n
            invariant
                n == self@.len(),
                n < u128::MAX,
                c <= n + 1,
                forall|d: u128| d < c ==> ids_of(self@).contains(d),
            decreases n + 1 - c,
        {
            if !self.contains_id(c) {
                return c;
            }
            c += 1;
        }
        proof {
            lemma_free_id_below(ids_of(self@));
            let w = choose|w: u128| w <= ids_of(self@).len() && !ids_of(self@).contains(w);
            assert(ids_of(self@).contains(w));
            assert(false);
        }
        0
    }

    /// Index of the entry that carries this identifier, if any.
    pub open spec fn spec_index_of(ps: Seq<ProjectView>, id: u128) -> int {
        choose|i: int| 0 <= i < ps.len() && ps[i].id == id
    }

    /// Point lookup by identifier; an absent identifier yields `None`.
    pub fn get(&self, id: u128) -> (r: Option<&Project>)
        requires
            self.wf(),
        ensures
            match r {
                Some(p) => ids_of(self@).contains(id) && p@ == self@[Self::spec_index_of(
                    self@,
                    id,
                )] && p@.id == id,
                None => !ids_of(self@).contains(id),
            },
    {
        let n = self.projects.len();
        let mut i: usize = 0;
        while i < n
            invariant
                self.wf(),
                n == self@.len(),
                0 <= i <= n,
                forall|k: int| 0 <= k < i ==> self@[k].id != id,
            decreases n - i,
        {
            if self.projects[i].id == id {
                proof {
                    assert(ids_of(self@)[i as int] == id);
                    assert(Self::spec_index_of(self@, id) == i as int);
                }
                return Some(&self.projects[i]);
            }
            i += 1;
        }
        proof {
            assert(forall|k: int| 0 <= k < ids_of(self@).len() ==> ids_of(self@)[k] != id);
        }
        None
    }

    /// Overwrites name and description of the entry carrying this
    /// identifier; reports `false`, changing nothing, if it is absent.
    pub fn update(&mut self, id: u128, name: &str, description: &str) -> (r: bool)
        requires
            old(self).wf(),
        ensures
            final(self).wf(),
            r == ids_of(old(self)@).contains(id),
            r ==> final(self)@ == old(self)@.update(
                Self::spec_index_of(old(self)@, id),
                ProjectView { id: id, name: name@, description: description@ },
            ),
            !r ==> final(self)@ == old(self)@,
    {
        let n = self.projects.len();
        let mut i: usize = 0;
        while i < n
            invariant
                self.wf(),
                *self == *old(self),
                n == self@.len(),
                0 <= i <= n,
                forall|k: int| 0 <= k < i ==> self@[k].id != id,
            decreases n - i,
        {
            if self.projects[i].id == id {
                proof {
                    assert(ids_of(self@)[i as int] == id);
                    assert(Self::spec_index_of(self@, id) == i as int);
                }
                let ghost pre = self@;
                let p = Project { id, name: name.to_owned(), description: description.to_owned() };
                self.projects.set(i, p);
                proof {
                    assert(self@ =~= pre.update(
                        i as int,
                        ProjectView { id: id, name: name@, description: description@ },
                    ));
                    assert(ids_unique(self@));
                }
                return true;
            }
            i += 1;
        }
        proof {
            assert(forall|k: int| 0 <= k < ids_of(self@).len() ==> ids_of(self@)[k] != id);
        }
        false
    }

    /// The identifiers of all entries, in display order.
    pub fn all_ids(&self) -> (r: Vec<u128>)
        requires
            self.wf(),
        ensures
            r@ == ids_of(self@),
            r@.no_duplicates(),
    {
        let n = self.projects.len();
        let mut out: Vec<u128> = Vec::new();
        let mut i: usize = 0;
        while i < n
            invariant
                n == self@.len(),
                0 <= i <= n,
                out@.len() == i,
                forall|k: int| 0 <= k < i ==> out@[k] == self@[k].id,
            decreases n - i,
        {
            out.push(self.projects[i].id);
            i += 1;
        }
        proof {
            assert(out@ =~= ids_of(self@));
            lemma_ids_no_duplicates(self@);
        }
        out
    }

    /// Ordered snapshot of all entries, aliasing no internal state.
    pub fn list(&self) -> (r: Vec<Project>)
        ensures
            r@.map_values(|p: Project| p@) == self@,
    {
        let n = self.projects.len();
        let mut out: Vec<Project> = Vec::new();
        let mut i: usize = 0;
        while i < n
            invariant
                n == self@.len(),
                0 <= i <= n,
                out@.len() == i,
                forall|k: int| 0 <= k < i ==> out@[k]@ == self@[k],
            decreases n - i,
        {
            let p = self.projects[i].clone();
            proof {
                assert(p@ == self@[i as int]);
            }
            out.push(p);
            i += 1;
        }
        proof {
            assert(out@.map_values(|q: Project| q@) =~= self@);
        }
        out
    }
}

} // verus!
