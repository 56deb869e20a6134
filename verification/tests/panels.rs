use service_containers::container_modals::{ManageContainersModal, ModalAction, NewContainerModal};
use service_containers::containers::ContainerConfig;
use service_containers::services_panel::{Disclosure, DockPosition, RowIcon, ServicesPanel};

type Panel = ServicesPanel<&'static str, u32, u32, u8>;

fn panel_with(names: &[&'static str]) -> Panel {
    let mut p = Panel::new();
    for n in names {
        p.add_service(n.to_string(), None, *n);
    }
    p
}

#[test]
fn new_panel_is_empty_on_the_right() {
    let p = Panel::new();
    assert!(p.is_empty());
    assert_eq!(p.len(), 0);
    assert_eq!(p.position(), DockPosition::Right);
}

#[test]
fn added_service_is_collapsed() {
    let p = panel_with(&["web"]);
    let row = p.row(0).unwrap();
    assert_eq!(row.name, "web");
    assert_eq!(row.icon, RowIcon::Server);
    assert_eq!(row.disclosure, Disclosure::ChevronRight);
    assert!(!row.is_expanded && !row.renaming && !row.shows_terminal);
    assert_eq!(p.terminal(0), Some(&"web"));
    assert!(p.row(1).is_none());
}

#[test]
fn toggle_twice_restores() {
    let mut p = panel_with(&["web", "db"]);
    assert!(p.toggle_expand(1));
    assert!(p.row(1).unwrap().is_expanded);
    assert_eq!(p.row(1).unwrap().disclosure, Disclosure::ChevronDown);
    assert!(p.toggle_expand(1));
    assert!(!p.row(1).unwrap().is_expanded);
    assert!(!p.toggle_expand(2));
}

#[test]
fn views_are_made_for_expanded_services_only() {
    let mut p = panel_with(&["a", "b", "c"]);
    p.toggle_expand(0);
    p.toggle_expand(2);
    assert_eq!(p.views_to_create(), vec![0, 2]);
    assert!(p.attach_terminal_view(0, 10));
    assert!(!p.attach_terminal_view(0, 11));
    assert!(!p.attach_terminal_view(1, 12));
    assert_eq!(p.views_to_create(), vec![2]);
    assert_eq!(p.terminal_view(0), Some(&10));
    assert!(p.row(0).unwrap().shows_terminal);
    p.toggle_expand(0);
    assert!(!p.row(0).unwrap().shows_terminal);
    assert_eq!(p.terminal_view(0), Some(&10));
}

#[test]
fn remove_service() {
    let mut p = panel_with(&["a", "b", "c"]);
    assert!(p.remove_service(1));
    assert_eq!(p.len(), 2);
    assert_eq!(p.row(1).unwrap().name, "c");
    assert!(!p.remove_service(5));
    assert_eq!(p.len(), 2);
}

#[test]
fn rename_saved_trims() {
    let mut p = panel_with(&["a"]);
    assert!(p.start_renaming(0, 70, 7));
    assert!(p.row(0).unwrap().renaming);
    assert_eq!(p.rename_editor(0), Some(&7));
    assert_eq!(p.finish_renaming(0, true, "  api server "), Some(7));
    assert_eq!(p.row(0).unwrap().name, "api server");
    assert!(!p.row(0).unwrap().renaming);
    assert_eq!(p.finish_renaming(0, true, "other"), None);
    assert_eq!(p.row(0).unwrap().name, "api server");
}

#[test]
fn rename_blank_or_cancelled_keeps_name() {
    let mut p = panel_with(&["a"]);
    p.start_renaming(0, 10, 1);
    assert_eq!(p.finish_renaming(0, true, "   "), Some(1));
    assert_eq!(p.row(0).unwrap().name, "a");
    p.start_renaming(0, 20, 2);
    assert_eq!(p.finish_renaming(0, false, "b"), Some(2));
    assert_eq!(p.row(0).unwrap().name, "a");
}

#[test]
fn stale_rename_editor_is_not_current() {
    let mut p = panel_with(&["a"]);
    p.start_renaming(0, 1, 100);
    assert!(p.is_current_rename(0, 1));
    p.start_renaming(0, 2, 200);
    assert!(!p.is_current_rename(0, 1));
    assert!(p.is_current_rename(0, 2));
    assert!(!p.is_current_rename(3, 2));
    assert!(!p.start_renaming(3, 9, 900));
    assert_eq!(p.rename_editor(0), Some(&200));
    assert_eq!(p.finish_renaming(0, false, ""), Some(200));
    assert!(!p.is_current_rename(0, 2));
}

#[test]
fn set_icon_reports_change() {
    let mut p = panel_with(&["a"]);
    assert!(p.set_service_icon(0, Some(4)));
    assert_eq!(p.row(0).unwrap().icon, RowIcon::Custom(4));
    assert!(!p.set_service_icon(0, Some(4)));
    assert!(p.set_service_icon(0, None));
    assert!(!p.set_service_icon(0, None));
    assert!(!p.set_service_icon(1, Some(4)));
}

#[test]
fn set_position_keeps_services() {
    let mut p = panel_with(&["a"]);
    p.set_position(DockPosition::Bottom);
    assert_eq!(p.position(), DockPosition::Bottom);
    assert_eq!(p.len(), 1);
}

#[test]
fn new_container_dialog_requires_a_name() {
    let mut m = NewContainerModal::new();
    assert_eq!(m.error(), None);
    assert_eq!(m.submit(""), Some(ModalAction::Redraw));
    assert_eq!(m.error().map(|e| e.as_str()), Some("Container name is required"));
    assert_eq!(m.submit("Work"), None);
    assert_eq!(m.creation_finished(Err("Container 'Work' already exists".to_string())), ModalAction::Redraw);
    assert_eq!(m.error().map(|e| e.as_str()), Some("Container 'Work' already exists"));
    assert_eq!(m.creation_finished(Ok(())), ModalAction::Dismiss);
}

fn named(n: &str) -> ContainerConfig {
    ContainerConfig {
        name: n.to_string(),
        description: String::new(),
        data_dir: String::new(),
        config_dir: String::new(),
        logs_dir: String::new(),
        cache_dir: String::new(),
    }
}

#[test]
fn manage_dialog_removes_only_deleted() {
    let mut m = ManageContainersModal::new(vec![named("a"), named("b")]);
    assert_eq!(m.deletion_target(1), Some("b".to_string()));
    assert_eq!(m.deletion_target(2), None);
    assert!(!m.deletion_finished(1, false));
    assert_eq!(m.containers().len(), 2);
    assert!(m.deletion_finished(0, true));
    assert_eq!(m.containers(), &vec![named("b")]);
    assert!(!m.deletion_finished(4, true));
}

#[test]
fn one_drawing_pass_makes_all_views() {
    let mut p = panel_with(&["a", "b", "c"]);
    p.toggle_expand(0);
    p.toggle_expand(2);
    let views: Vec<(usize, u32)> = p.views_to_create().into_iter().map(|i| (i, 10 + i as u32)).collect();
    p.attach_terminal_views(views);
    assert!(p.views_to_create().is_empty());
    assert_eq!(p.terminal_view(0), Some(&10));
    assert_eq!(p.terminal_view(1), None);
    assert_eq!(p.terminal_view(2), Some(&12));
    p.attach_terminal_views(vec![(2, 99), (7, 5)]);
    assert_eq!(p.terminal_view(2), Some(&12));
}
