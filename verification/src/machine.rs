//! The application state machine: a two-state top level (not yet
//! loaded, loaded) and the message dispatch that is the sole authority
//! over the store, the edit buffer, the selection and the validation
//! state.

use vstd::prelude::*;
use crate::form::validate_name;
use crate::form::ProjectFormState;
use crate::project::ids_of;
use crate::project::ids_unique;
use crate::project::Project;
use crate::project::ProjectStore;
use crate::project::ProjectView;

verus! {

/// How often the scheduler asks for a sync, in seconds, while the
/// application is loaded; it never waits for an earlier sync to land.
pub const AUTOSAVE_PERIOD_SECS: u64 = 15;

/// Which top-level view is active; it determines what a commit of the
/// edit buffer means.
#[derive(Clone, Copy, PartialEq, Eq, Structural, Debug)]
pub enum Context {
    ProjectList,
    NewProject,
    EditProject,
}

/// Selection state of the list view: the identifiers of the checked
/// rows.
pub struct ProjectListState {
    pub selected_projects: Vec<u128>,
}

impl ProjectListState {
    /// Nothing starts out selected.
    pub fn new() -> (r: Self)
        ensures
            r.selected_projects@ == Seq::<u128>::empty(),
    {
        ProjectListState { selected_projects: Vec::new() }
    }
}

/// The messages the state machine consumes, one at a time.
pub enum Message {
    AppLoaded(Result<ProjectStore, String>),
    AppSync,
    NewProject,
    EditProject(u128),
    EditProjectCancel,
    CurrentProjectSave,
    CurrentProjectNameChange(String),
    CurrentProjectDescriptionChange(String),
    ProjectListProjectSelected { selected: bool, selected_project_id: u128 },
    ProjectListSelectAllProjects(bool),
}

/// What the surrounding shell must do after a message was processed:
/// nothing, persist the store, or move input focus into the form.
#[derive(Clone, Copy, PartialEq, Eq, Structural, Debug)]
pub enum Command {
    Idle,
    Persist,
    RequestFocus,
}

/// Everything the loaded application tracks: always-present fields
/// kept mutually consistent by the transition rules alone.
pub struct AppState {
    pub context: Context,
    pub store: ProjectStore,
    pub current_project: Option<Project>,
    pub project_list_state: ProjectListState,
    pub project_form_state: ProjectFormState,
}

/// Both form fields read as valid with no message.
pub open spec fn form_reset(f: ProjectFormState) -> bool {
    &&& f.name_field.is_valid
    &&& f.name_field.validation_message@ == Seq::<char>::empty()
    &&& f.description_field.is_valid
    &&& f.description_field.validation_message@ == Seq::<char>::empty()
}

/// A freshly loaded state over the given store contents.
pub open spec fn fresh_state(st: AppState, ps: Seq<ProjectView>) -> bool {
    &&& st.context is ProjectList
    &&& st.store@ == ps
    &&& st.current_project is None
    &&& st.selected() == Seq::<u128>::empty()
    &&& form_reset(st.project_form_state)
}

/// The selection after one row's checkbox changes: checking adds the
/// identifier if the store knows it and it is not yet selected;
/// unchecking removes it.
pub open spec fn sel_after_toggle(
    sel: Seq<u128>,
    store_ids: Seq<u128>,
    selected: bool,
    id: u128,
) -> Seq<u128> {
    if selected {
        if store_ids.contains(id) && !sel.contains(id) {
            sel.push(id)
        } else {
            sel
        }
    } else {
        sel.remove_value(id)
    }
}

/// The selection after the select-all checkbox changes: every store
/// identifier, or nothing.
pub open spec fn sel_after_select_all(store_ids: Seq<u128>, selected: bool) -> Seq<u128> {
    if selected {
        store_ids
    } else {
        Seq::<u128>::empty()
    }
}

/// The subsequence of `ids` whose elements `sel` contains, in order.
pub open spec fn selected_subseq(ids: Seq<u128>, sel: Seq<u128>) -> Seq<u128>
    decreases ids.len(),
{
    if ids.len() == 0 {
        Seq::empty()
    } else {
        let rest = selected_subseq(ids.drop_last(), sel);
        if sel.contains(ids.last()) {
            rest.push(ids.last())
        } else {
            rest
        }
    }
}

/// Entering project creation: an empty buffer, validations reset, the
/// creation context; store and selection untouched.
pub open spec fn new_project_rel(pre: AppState, post: AppState) -> bool {
    &&& post.store == pre.store
    &&& post.project_list_state == pre.project_list_state
    &&& post.context is NewProject
    &&& post.current_project matches Some(b) && b@.name == Seq::<char>::empty() && b@.description
        == Seq::<char>::empty()
    &&& form_reset(post.project_form_state)
}

/// Entering an edit: a copy of the addressed project becomes the
/// buffer, validations reset; an unknown identifier changes nothing.
pub open spec fn edit_project_rel(pre: AppState, post: AppState, id: u128) -> bool {
    if ids_of(pre.store@).contains(id) {
        &&& post.store == pre.store
        &&& post.project_list_state == pre.project_list_state
        &&& post.context is EditProject
        &&& post.current_project matches Some(p) && p@ == pre.store@[ProjectStore::spec_index_of(
            pre.store@,
            id,
        )]
        &&& form_reset(post.project_form_state)
    } else {
        post == pre
    }
}

/// Cancelling an edit: the buffer is dropped and the list view
/// returns; store, selection and validations untouched.
pub open spec fn cancel_rel(pre: AppState, post: AppState) -> bool {
    &&& post.store == pre.store
    &&& post.project_list_state == pre.project_list_state
    &&& post.project_form_state == pre.project_form_state
    &&& post.context is ProjectList
    &&& post.current_project is None
}

/// A name keystroke: the buffer's name follows the text and the name
/// rule is re-run — empty is invalid with its message, anything else
/// valid; without a buffer the message is ignored.
pub open spec fn name_change_rel(pre: AppState, post: AppState, text: Seq<char>) -> bool {
    match pre.current_project {
        Some(b) => {
            &&& post.store == pre.store
            &&& post.project_list_state == pre.project_list_state
            &&& post.context == pre.context
            &&& post.current_project matches Some(p) && p@.id == b@.id && p@.name == text
                && p@.description == b@.description
            &&& post.project_form_state.name_field.is_valid == (text.len() > 0)
            &&& (text.len() == 0
                ==> post.project_form_state.name_field.validation_message@ == "Name is required"@)
            &&& (text.len() > 0 ==> post.project_form_state.name_field.validation_message@
                == Seq::<char>::empty())
            &&& post.project_form_state.description_field == pre.project_form_state.description_field
        },
        None => post == pre,
    }
}

/// A description keystroke: the buffer's description follows the
/// text; no rule runs; without a buffer the message is ignored.
pub open spec fn description_change_rel(pre: AppState, post: AppState, text: Seq<char>) -> bool {
    match pre.current_project {
        Some(b) => {
            &&& post.store == pre.store
            &&& post.project_list_state == pre.project_list_state
            &&& post.context == pre.context
            &&& post.project_form_state == pre.project_form_state
            &&& post.current_project matches Some(p) && p@.id == b@.id && p@.description == text
                && p@.name == b@.name
        },
        None => post == pre,
    }
}

/// After a commit: back to the list view with no buffer; selection
/// and validations untouched.
pub open spec fn committed_frame(pre: AppState, post: AppState) -> bool {
    &&& post.project_list_state == pre.project_list_state
    &&& post.project_form_state == pre.project_form_state
    &&& post.context is ProjectList
    &&& post.current_project is None
}

/// Committing the buffer: in the creation context the store gains a
/// new entry under a fresh identifier; in the edit context the
/// addressed entry is overwritten in place; the commit is not blocked
/// by validation state; without a buffer the message is ignored.
pub open spec fn save_rel(pre: AppState, post: AppState) -> bool {
    match pre.context {
        Context::NewProject => {
            &&& pre.current_project matches Some(b) && (exists|nid: u128|
                !ids_of(pre.store@).contains(nid) && post.store@ == pre.store@.push(
                    ProjectView { id: nid, name: b@.name, description: b@.description },
                ))
            &&& committed_frame(pre, post)
        },
        Context::EditProject => {
            &&& pre.current_project matches Some(b) && post.store@ == pre.store@.update(
                ProjectStore::spec_index_of(pre.store@, b@.id),
                ProjectView { id: b@.id, name: b@.name, description: b@.description },
            )
            &&& committed_frame(pre, post)
        },
        Context::ProjectList => post == pre,
    }
}

/// A row checkbox: the selection follows [`sel_after_toggle`];
/// everything else untouched.
pub open spec fn toggle_rel(pre: AppState, post: AppState, selected: bool, id: u128) -> bool {
    &&& post.store == pre.store
    &&& post.context == pre.context
    &&& post.current_project == pre.current_project
    &&& post.project_form_state == pre.project_form_state
    &&& post.selected() == sel_after_toggle(pre.selected(), ids_of(pre.store@), selected, id)
}

/// The select-all checkbox: the selection follows
/// [`sel_after_select_all`]; everything else untouched.
pub open spec fn select_all_rel(pre: AppState, post: AppState, selected: bool) -> bool {
    &&& post.store == pre.store
    &&& post.context == pre.context
    &&& post.current_project == pre.current_project
    &&& post.project_form_state == pre.project_form_state
    &&& post.selected() == sel_after_select_all(ids_of(pre.store@), selected)
}

impl AppState {
    /// The identifiers currently selected, in selection order.
    pub open spec fn selected(self) -> Seq<u128> {
        self.project_list_state.selected_projects@
    }

    /// The invariant the transition rules keep: the store is valid,
    /// the selection is a duplicate-free subset of the store's
    /// identifiers, and the edit buffer is present exactly in the two
    /// editing contexts — in the edit context over an identifier the
    /// store still holds.
    pub open spec fn wf(self) -> bool {
        &&& self.store.wf()
        &&& self.selected().no_duplicates()
        &&& forall|k: int|
            0 <= k < self.selected().len() ==> ids_of(self.store@).contains(
                #[trigger] self.selected()[k],
            )
        &&& (self.context is ProjectList ==> self.current_project is None)
        &&& (self.context is NewProject ==> self.current_project is Some)
        &&& (self.context is EditProject ==> self.current_project is Some && ids_of(
            self.store@,
        ).contains(self.current_project.unwrap()@.id))
    }

    /// Whether a row is currently checked.
    pub fn is_project_selected(&self, project_id: u128) -> (r: bool)
        ensures
            r == self.selected().contains(project_id),
    {
        let n = self.project_list_state.selected_projects.len();
        let mut i: usize = 0;
        while i < n
            invariant
                n == self.selected().len(),
                0 <= i <= n,
                forall|k: int| 0 <= k < i ==> self.selected()[k] != project_id,
            decreases n - i,
        {
            if self.project_list_state.selected_projects[i] == project_id {
                proof {
                    assert(self.selected()[i as int] == project_id);
                }
                return true;
            }
            i += 1;
        }
        false
    }

    /// Ordered snapshot of the store, for rendering.
    pub fn get_projects(&self) -> (r: Vec<Project>)
        ensures
            r@.map_values(|p: Project| p@) == self.store@,
    {
        self.store.list()
    }

    /// The store's identifiers that are currently selected, in store
    /// order.
    pub fn get_selected_project_ids(&self) -> (r: Vec<u128>)
        requires
            self.wf(),
        ensures
            r@ == selected_subseq(ids_of(self.store@), self.selected()),
    {
        let ids = self.store.all_ids();
        let ghost sel = self.selected();
        let n = ids.len();
        let mut out: Vec<u128> = Vec::new();
        let mut i: usize = 0;
        while i < n
            invariant
                n == ids@.len(),
                0 <= i <= n,
                sel == self.selected(),
                out@ == selected_subseq(ids@.take(i as int), sel),
            decreases n - i,
        {
            let ghost pre_take = ids@.take(i as int);
            proof {
                assert(ids@.take(i + 1).drop_last() =~= pre_take);
                assert(ids@.take(i + 1).last() == ids@[i as int]);
            }
            if self.is_project_selected(ids[i]) {
                out.push(ids[i]);
            }
            proof {
                assert(selected_subseq(ids@.take(i + 1), sel) == (if sel.contains(
                    ids@[i as int],
                ) {
                    selected_subseq(pre_take, sel).push(ids@[i as int])
                } else {
                    selected_subseq(pre_take, sel)
                }));
            }
            i += 1;
        }
        proof {
            assert(ids@.take(n as int) =~= ids@);
        }
        out
    }

    /// The list view's "all selected" reading: a size comparison
    /// between the selection and the store, not a set comparison.
    pub fn all_projects_selected(&self) -> (r: bool)
        ensures
            r == (self.selected().len() == self.store@.len()),
    {
        self.project_list_state.selected_projects.len() == self.store.len()
    }

    /// Opens the creation form over an empty buffer.
    fn apply_new_project(&mut self)
        requires
            old(self).wf(),
        ensures
            final(self).wf(),
            new_project_rel(*old(self), *final(self)),
    {
        self.current_project = Some(
            Project { id: 0, name: String::new(), description: String::new() },
        );
        self.project_form_state = ProjectFormState::new();
        self.context = Context::NewProject;
    }

    /// Opens the edit form over a copy of the addressed project; an
    /// unknown identifier changes nothing.
    fn apply_edit_project(&mut self, id: u128)
        requires
            old(self).wf(),
        ensures
            final(self).wf(),
            edit_project_rel(*old(self), *final(self), id),
    {
        let buffer: Option<Project> = match self.store.get(id) {
            None => None,
            Some(p) => Some(p.clone()),
        };
        match buffer {
            None => {},
            Some(b) => {
                self.current_project = Some(b);
                self.project_form_state = ProjectFormState::new();
                self.context = Context::EditProject;
            },
        }
    }

    /// Drops the buffer and returns to the list view.
    fn apply_cancel(&mut self)
        requires
            old(self).wf(),
        ensures
            final(self).wf(),
            cancel_rel(*old(self), *final(self)),
    {
        self.current_project = None;
        self.context = Context::ProjectList;
    }

    /// Overwrites the buffer's name and re-runs the name rule.
    fn apply_name_change(&mut self, name: String)
        requires
            old(self).wf(),
        ensures
            final(self).wf(),
            name_change_rel(*old(self), *final(self), name@),
    {
        let cur: Option<Project> = match &self.current_project {
            None => None,
            Some(p) => Some(p.clone()),
        };
        match cur {
            None => {},
            Some(mut p) => {
                p.name = name;
                self.project_form_state.name_field = validate_name(p.name.as_str());
                self.current_project = Some(p);
            },
        }
    }

    /// Overwrites the buffer's description; no rule runs.
    fn apply_description_change(&mut self, description: String)
        requires
            old(self).wf(),
        ensures
            final(self).wf(),
            description_change_rel(*old(self), *final(self), description@),
    {
        let cur: Option<Project> = match &self.current_project {
            None => None,
            Some(p) => Some(p.clone()),
        };
        match cur {
            None => {},
            Some(mut p) => {
                p.description = description;
                self.current_project = Some(p);
            },
        }
    }

    /// Commits the buffer into the store, then returns to the list
    /// view; ignored when no buffer is present.
    fn apply_save(&mut self)
        requires
            old(self).wf(),
        ensures
            final(self).wf(),
            save_rel(*old(self), *final(self)),
    {
        let cur: Option<Project> = match &self.current_project {
            None => None,
            Some(p) => Some(p.clone()),
        };
        match cur {
            None => {},
            Some(b) => {
                let ghost pre_store = self.store@;
                self.current_project = None;
                let ctx = self.context;
                self.context = Context::ProjectList;
                match ctx {
                    Context::NewProject => {
                        let nid = self.store.create(b.name.as_str(), b.description.as_str());
                        proof {
                            let pv = ProjectView {
                                id: nid,
                                name: b.name@,
                                description: b.description@,
                            };
                            assert(!ids_of(pre_store).contains(nid) && self.store@
                                == pre_store.push(pv));
                            assert(ids_of(self.store@) =~= ids_of(pre_store).push(nid));
                            assert forall|k: int|
                                0 <= k < self.selected().len() implies ids_of(
                                self.store@,
                            ).contains(#[trigger] self.selected()[k]) by {
                                let v = self.selected()[k];
                                assert(old(self).selected()[k] == v);
                                assert(ids_of(pre_store).contains(v));
                                let j = choose|j: int|
                                    0 <= j < ids_of(pre_store).len() && ids_of(pre_store)[j] == v;
                                assert(ids_of(self.store@)[j] == v);
                            }
                        }
                    },
                    Context::EditProject => {
                        self.store.update(b.id, b.name.as_str(), b.description.as_str());
                        proof {
                            assert(ids_of(self.store@) =~= ids_of(pre_store));
                            assert forall|k: int|
                                0 <= k < self.selected().len() implies ids_of(
                                self.store@,
                            ).contains(#[trigger] self.selected()[k]) by {
                                assert(old(self).selected()[k] == self.selected()[k]);
                            }
                        }
                    },
                    Context::ProjectList => {
                        proof {
                            assert(false);
                        }
                    },
                }
            },
        }
    }

    /// Applies one row's checkbox change to the selection.
    fn apply_toggle_selected(&mut self, selected: bool, id: u128)
        requires
            old(self).wf(),
        ensures
            final(self).wf(),
            toggle_rel(*old(self), *final(self), selected, id),
    {
        if selected {
            if self.store.contains_id(id) && !self.is_project_selected(id) {
                self.project_list_state.selected_projects.push(id);
            }
        } else {
            let n = self.project_list_state.selected_projects.len();
            let ghost pre_sel = self.selected();
            let mut i: usize = 0;
            while i < n
                invariant
                    old(self).wf(),
                    !selected,
                    *self == *old(self),
                    pre_sel == self.selected(),
                    n == pre_sel.len(),
                    0 <= i <= n,
                    forall|k: int| 0 <= k < i ==> pre_sel[k] != id,
                decreases n - i,
            {
                if self.project_list_state.selected_projects[i] == id {
                    proof {
                        pre_sel.index_of_first_ensures(id);
                        assert(pre_sel[i as int] == id);
                        assert(pre_sel.index_of_first(id) == Some(i as int));
                    }
                    self.project_list_state.selected_projects.remove(i);
                    proof {
                        let post = self.selected();
                        assert(post == pre_sel.remove(i as int));
                        assert(post == pre_sel.remove_value(id));
                        assert(forall|k: int|
                            0 <= k < post.len() ==> #[trigger] post[k] == (if k < i {
                                pre_sel[k]
                            } else {
                                pre_sel[k + 1]
                            }));
                        assert forall|a: int, c: int|
                            0 <= a < post.len() && 0 <= c < post.len() && a != c implies post[a]
                            != post[c] by {
                            let a2: int = if a < i { a } else { a + 1 };
                            let c2: int = if c < i { c } else { c + 1 };
                            assert(post[a] == pre_sel[a2]);
                            assert(post[c] == pre_sel[c2]);
                        }
                        assert(post.no_duplicates());
                        assert forall|k: int|
                            0 <= k < post.len() implies ids_of(self.store@).contains(
                            #[trigger] post[k],
                        ) by {
                            let k2: int = if k < i { k } else { k + 1 };
                            assert(post[k] == pre_sel[k2]);
                        }
                    }
                    return;
                }
                i += 1;
            }
            proof {
                pre_sel.index_of_first_ensures(id);
                assert(!pre_sel.contains(id));
                assert(pre_sel.remove_value(id) == pre_sel);
            }
        }
    }

    /// Applies the select-all checkbox to the selection.
    fn apply_select_all(&mut self, selected: bool)
        requires
            old(self).wf(),
        ensures
            final(self).wf(),
            select_all_rel(*old(self), *final(self), selected),
    {
        if selected {
            let ids = self.store.all_ids();
            self.project_list_state.selected_projects = ids;
            proof {
                assert forall|k: int|
                    0 <= k < self.selected().len() implies ids_of(self.store@).contains(
                    #[trigger] self.selected()[k],
                ) by {
                    assert(ids_of(self.store@)[k] == self.selected()[k]);
                }
            }
        } else {
            self.project_list_state.selected_projects = Vec::new();
        }
    }

    /// The starting state over a loaded store.
    pub fn initial(store: ProjectStore) -> (r: AppState)
        requires
            store.wf(),
        ensures
            r.wf(),
            fresh_state(r, store@),
    {
        AppState {
            context: Context::ProjectList,
            store,
            current_project: None,
            project_list_state: ProjectListState::new(),
            project_form_state: ProjectFormState::new(),
        }
    }
}

/// Law: turning the select-all checkbox off empties the selection,
/// whatever was selected before and whatever the store holds.
pub proof fn lemma_select_all_off_empties(store_ids: Seq<u128>)
    ensures
        sel_after_select_all(store_ids, false) == Seq::<u128>::empty(),
{
}

/// Law: unchecking an identifier that is not currently selected
/// leaves the selection exactly as it was.
pub proof fn lemma_deselect_absent(sel: Seq<u128>, store_ids: Seq<u128>, id: u128)
    requires
        !sel.contains(id),
    ensures
        sel_after_toggle(sel, store_ids, false, id) == sel,
{
    sel.index_of_first_ensures(id);
}

/// Law: when every one of the store's identifiers has been selected
/// individually, the selection's size equals the store's, so the
/// all-selected size comparison reads true.
pub proof fn lemma_all_selected(ps: Seq<ProjectView>, sel: Seq<u128>)
    requires
        ids_unique(ps),
        sel.no_duplicates(),
        forall|k: int| 0 <= k < sel.len() ==> ids_of(ps).contains(#[trigger] sel[k]),
        forall|k: int| 0 <= k < ps.len() ==> sel.contains(#[trigger] ids_of(ps)[k]),
    ensures
        sel.len() == ps.len(),
{
    let ids = ids_of(ps);
    crate::project::lemma_ids_no_duplicates(ps);
    assert(sel.to_set() =~= ids.to_set()) by {
        assert forall|v: u128| sel.to_set().contains(v) implies ids.to_set().contains(v) by {
            let k = choose|k: int| 0 <= k < sel.len() && sel[k] == v;
            assert(ids.contains(sel[k]));
        }
        assert forall|v: u128| ids.to_set().contains(v) implies sel.to_set().contains(v) by {
            let k = choose|k: int| 0 <= k < ids.len() && ids[k] == v;
            assert(sel.contains(ids[k]));
        }
    }
    sel.unique_seq_to_set();
    ids.unique_seq_to_set();
}

/// Law: from a fully selected store, unchecking one selected
/// identifier makes the all-selected size comparison read false.
pub proof fn lemma_deselect_one_breaks(ps: Seq<ProjectView>, sel: Seq<u128>, id: u128)
    requires
        ids_unique(ps),
        sel.no_duplicates(),
        forall|k: int| 0 <= k < sel.len() ==> ids_of(ps).contains(#[trigger] sel[k]),
        forall|k: int| 0 <= k < ps.len() ==> sel.contains(#[trigger] ids_of(ps)[k]),
        sel.contains(id),
    ensures
        sel_after_toggle(sel, ids_of(ps), false, id).len() != ps.len(),
{
    lemma_all_selected(ps, sel);
    sel.index_of_first_ensures(id);
    let i = sel.index_of_first(id).unwrap();
    assert(sel.remove_value(id) == sel.remove(i));
    assert(sel.remove(i).len() == sel.len() - 1);
}

/// The application: nothing until the load completes, then the full
/// state.
pub enum App {
    Loading,
    Loaded(AppState),
}

impl App {
    /// The whole application's invariant.
    pub open spec fn wf(self) -> bool {
        match self {
            App::Loading => true,
            App::Loaded(st) => st.wf(),
        }
    }

    /// The application starts before its store has loaded.
    pub fn new() -> (r: Self)
        ensures
            r is Loading,
            r.wf(),
    {
        App::Loading
    }

    /// Consumes one message and yields what the shell must do next.
    /// Before the load completes only the load-completion message is
    /// accepted; afterwards the transition table drives every field.
    pub fn update(&mut self, message: Message) -> (cmd: Command)
        requires
            old(self).wf(),
            message matches Message::AppLoaded(Ok(s)) ==> s.wf(),
        ensures
            final(self).wf(),
            match *old(self) {
                App::Loading => cmd is Idle && match message {
                    Message::AppLoaded(res) => *final(self) matches App::Loaded(st) && fresh_state(
                        st,
                        match res {
                            Ok(s) => s@,
                            Err(_) => Seq::<ProjectView>::empty(),
                        },
                    ),
                    _ => *final(self) is Loading,
                },
                App::Loaded(pre) => (*final(self) matches App::Loaded(post) && match message {
                    Message::AppLoaded(_) => post == pre && cmd is Idle,
                    Message::AppSync => post == pre && cmd is Persist,
                    Message::NewProject => new_project_rel(pre, post) && cmd is RequestFocus,
                    Message::EditProject(id) => edit_project_rel(pre, post, id) && cmd is Idle,
                    Message::EditProjectCancel => cancel_rel(pre, post) && cmd is Idle,
                    Message::CurrentProjectSave => save_rel(pre, post) && cmd is Idle,
                    Message::CurrentProjectNameChange(text) => name_change_rel(pre, post, text@)
                        && cmd is Idle,
                    Message::CurrentProjectDescriptionChange(text) => description_change_rel(
                        pre,
                        post,
                        text@,
                    ) && cmd is Idle,
                    Message::ProjectListProjectSelected { selected, selected_project_id } =>
                        toggle_rel(pre, post, selected, selected_project_id) && cmd is Idle,
                    Message::ProjectListSelectAllProjects(selected) => select_all_rel(
                        pre,
                        post,
                        selected,
                    ) && cmd is Idle,
                }),
            },
    {
        match self {
            App::Loading => {
                match message {
                    Message::AppLoaded(Ok(store)) => {
                        *self = App::Loaded(AppState::initial(store));
                    },
                    Message::AppLoaded(Err(_)) => {
                        *self = App::Loaded(AppState::initial(ProjectStore::new()));
                    },
                    _ => {},
                }
                Command::Idle
            },
            App::Loaded(state) => match message {
                Message::AppLoaded(_) => Command::Idle,
                Message::AppSync => Command::Persist,
                Message::NewProject => {
                    state.apply_new_project();
                    Command::RequestFocus
                },
                Message::EditProject(id) => {
                    state.apply_edit_project(id);
                    Command::Idle
                },
                Message::EditProjectCancel => {
                    state.apply_cancel();
                    Command::Idle
                },
                Message::CurrentProjectSave => {
                    state.apply_save();
                    Command::Idle
                },
                Message::CurrentProjectNameChange(text) => {
                    state.apply_name_change(text);
                    Command::Idle
                },
                Message::CurrentProjectDescriptionChange(text) => {
                    state.apply_description_change(text);
                    Command::Idle
                },
                Message::ProjectListProjectSelected { selected, selected_project_id } => {
                    state.apply_toggle_selected(selected, selected_project_id);
                    Command::Idle
                },
                Message::ProjectListSelectAllProjects(selected) => {
                    state.apply_select_all(selected);
                    Command::Idle
                },
            },
        }
    }
}

} // verus!
