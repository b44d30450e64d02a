use taskmanager::form::validate_name;
use taskmanager::machine::App;
use taskmanager::machine::AppState;
use taskmanager::machine::Command;
use taskmanager::machine::Context;
use taskmanager::machine::Message;
use taskmanager::project::ProjectStore;

fn loaded(app: &App) -> &AppState {
    match app {
        App::Loaded(state) => state,
        App::Loading => panic!("application never finished loading"),
    }
}

#[test]
fn create_flow_stores_one_project() {
    let mut app = App::new();
    app.update(Message::AppLoaded(Ok(ProjectStore::new())));
    app.update(Message::NewProject);
    app.update(Message::CurrentProjectNameChange("Website".to_string()));
    app.update(Message::CurrentProjectDescriptionChange("Rebuild".to_string()));
    app.update(Message::CurrentProjectSave);
    let state = loaded(&app);
    let projects = state.get_projects();
    assert_eq!(projects.len(), 1);
    assert_eq!(projects[0].name, "Website");
    assert_eq!(projects[0].description, "Rebuild");
    assert_eq!(state.context, Context::ProjectList);
    assert!(state.current_project.is_none());
}

#[test]
fn edit_flow_commits_empty_name() {
    let mut app = App::new();
    let mut store = ProjectStore::new();
    let id = store.create("Old name", "Old description");
    app.update(Message::AppLoaded(Ok(store)));
    app.update(Message::EditProject(id));
    assert_eq!(loaded(&app).context, Context::EditProject);
    app.update(Message::CurrentProjectNameChange("".to_string()));
    assert!(!loaded(&app).project_form_state.name_field.is_valid);
    app.update(Message::CurrentProjectSave);
    let state = loaded(&app);
    let projects = state.get_projects();
    assert_eq!(projects.len(), 1);
    assert_eq!(projects[0].name, "");
    assert_eq!(projects[0].description, "Old description");
    assert_eq!(projects[0].id, id);
    assert_eq!(state.context, Context::ProjectList);
}

#[test]
fn select_all_then_none_empties_selection() {
    let mut app = App::new();
    let mut store = ProjectStore::new();
    store.create("a", "");
    store.create("b", "");
    store.create("c", "");
    app.update(Message::AppLoaded(Ok(store)));
    app.update(Message::ProjectListSelectAllProjects(true));
    assert!(loaded(&app).all_projects_selected());
    assert_eq!(loaded(&app).get_selected_project_ids().len(), 3);
    app.update(Message::ProjectListSelectAllProjects(false));
    assert_eq!(loaded(&app).get_selected_project_ids().len(), 0);
    assert!(loaded(&app).project_list_state.selected_projects.is_empty());
}

#[test]
fn deselecting_unselected_id_changes_nothing() {
    let mut app = App::new();
    let mut store = ProjectStore::new();
    let a = store.create("a", "");
    let b = store.create("b", "");
    app.update(Message::AppLoaded(Ok(store)));
    app.update(Message::ProjectListProjectSelected { selected: true, selected_project_id: a });
    let before = loaded(&app).project_list_state.selected_projects.clone();
    app.update(Message::ProjectListProjectSelected { selected: false, selected_project_id: b });
    let after = loaded(&app).project_list_state.selected_projects.clone();
    assert_eq!(before, after);
    assert!(loaded(&app).is_project_selected(a));
    assert!(!loaded(&app).is_project_selected(b));
}

#[test]
fn individually_selecting_all_flips_predicate() {
    let mut app = App::new();
    let mut store = ProjectStore::new();
    let a = store.create("a", "");
    let b = store.create("b", "");
    let c = store.create("c", "");
    app.update(Message::AppLoaded(Ok(store)));
    assert!(!loaded(&app).all_projects_selected());
    app.update(Message::ProjectListProjectSelected { selected: true, selected_project_id: a });
    assert!(!loaded(&app).all_projects_selected());
    app.update(Message::ProjectListProjectSelected { selected: true, selected_project_id: b });
    app.update(Message::ProjectListProjectSelected { selected: true, selected_project_id: c });
    assert!(loaded(&app).all_projects_selected());
    app.update(Message::ProjectListProjectSelected { selected: false, selected_project_id: b });
    assert!(!loaded(&app).all_projects_selected());
}

#[test]
fn load_failure_yields_empty_store() {
    let mut app = App::new();
    app.update(Message::AppLoaded(Err("disk unavailable".to_string())));
    let state = loaded(&app);
    assert_eq!(state.get_projects().len(), 0);
    assert_eq!(state.context, Context::ProjectList);
}

#[test]
fn messages_before_load_are_ignored() {
    let mut app = App::new();
    app.update(Message::NewProject);
    app.update(Message::ProjectListSelectAllProjects(true));
    assert!(matches!(app, App::Loading));
}

#[test]
fn edit_of_unknown_id_is_a_no_op() {
    let mut app = App::new();
    let mut store = ProjectStore::new();
    let id = store.create("a", "");
    app.update(Message::AppLoaded(Ok(store)));
    app.update(Message::EditProject(id.wrapping_add(1)));
    let state = loaded(&app);
    assert_eq!(state.context, Context::ProjectList);
    assert!(state.current_project.is_none());
}

#[test]
fn cancel_drops_the_buffer() {
    let mut app = App::new();
    app.update(Message::AppLoaded(Ok(ProjectStore::new())));
    app.update(Message::NewProject);
    app.update(Message::CurrentProjectNameChange("half-typed".to_string()));
    app.update(Message::EditProjectCancel);
    let state = loaded(&app);
    assert_eq!(state.context, Context::ProjectList);
    assert!(state.current_project.is_none());
    assert_eq!(state.get_projects().len(), 0);
}

#[test]
fn save_without_buffer_changes_nothing() {
    let mut app = App::new();
    let mut store = ProjectStore::new();
    store.create("a", "");
    app.update(Message::AppLoaded(Ok(store)));
    app.update(Message::CurrentProjectSave);
    let state = loaded(&app);
    assert_eq!(state.get_projects().len(), 1);
    assert_eq!(state.context, Context::ProjectList);
}

#[test]
fn commands_follow_the_messages() {
    let mut app = App::new();
    assert_eq!(app.update(Message::AppLoaded(Ok(ProjectStore::new()))), Command::Idle);
    assert_eq!(app.update(Message::AppSync), Command::Persist);
    assert_eq!(app.update(Message::NewProject), Command::RequestFocus);
    assert_eq!(app.update(Message::EditProjectCancel), Command::Idle);
}

#[test]
fn selecting_an_unknown_id_changes_nothing() {
    let mut app = App::new();
    let mut store = ProjectStore::new();
    let a = store.create("a", "");
    app.update(Message::AppLoaded(Ok(store)));
    app.update(Message::ProjectListProjectSelected {
        selected: true,
        selected_project_id: a.wrapping_add(1),
    });
    assert!(loaded(&app).project_list_state.selected_projects.is_empty());
}

#[test]
fn keystrokes_without_a_buffer_are_ignored() {
    let mut app = App::new();
    let mut store = ProjectStore::new();
    store.create("kept", "as it was");
    app.update(Message::AppLoaded(Ok(store)));
    app.update(Message::CurrentProjectNameChange("stray".to_string()));
    app.update(Message::CurrentProjectDescriptionChange("stray".to_string()));
    let state = loaded(&app);
    assert_eq!(state.get_projects()[0].name, "kept");
    assert_eq!(state.get_projects()[0].description, "as it was");
    assert!(state.project_form_state.name_field.is_valid);
}

#[test]
fn second_load_event_is_ignored_once_loaded() {
    let mut app = App::new();
    let mut store = ProjectStore::new();
    store.create("a", "");
    app.update(Message::AppLoaded(Ok(store)));
    app.update(Message::AppLoaded(Ok(ProjectStore::new())));
    assert_eq!(loaded(&app).get_projects().len(), 1);
}

#[test]
fn name_rule_requires_nonempty() {
    let empty = validate_name("");
    assert!(!empty.is_valid);
    assert_eq!(empty.validation_message, "Name is required");
    let ok = validate_name("Website");
    assert!(ok.is_valid);
    assert_eq!(ok.validation_message, "");
}

#[test]
fn name_keystrokes_revalidate() {
    let mut app = App::new();
    app.update(Message::AppLoaded(Ok(ProjectStore::new())));
    app.update(Message::NewProject);
    assert!(loaded(&app).project_form_state.name_field.is_valid);
    app.update(Message::CurrentProjectNameChange("".to_string()));
    assert!(!loaded(&app).project_form_state.name_field.is_valid);
    assert_eq!(
        loaded(&app).project_form_state.name_field.validation_message,
        "Name is required"
    );
    app.update(Message::CurrentProjectNameChange("W".to_string()));
    assert!(loaded(&app).project_form_state.name_field.is_valid);
    assert_eq!(loaded(&app).project_form_state.name_field.validation_message, "");
}
