use service_containers::containers::{
    collect_containers, config_file, container_config_path, container_dir, container_layout,
    containers_dir, deletion_dir, expanded_container_paths,
    require_absent, sort_by_name, ContainerConfig, ContainerError, CreationStep,
};

fn config(name: &str, description: &str) -> ContainerConfig {
    ContainerConfig {
        name: name.to_string(),
        description: description.to_string(),
        data_dir: format!("~/{}/data", name),
        config_dir: format!("~/{}/config", name),
        logs_dir: format!("/var/log/{}", name),
        cache_dir: format!("~/{}/cache", name),
    }
}

#[test]
fn containers_dir_is_below_home() {
    assert_eq!(containers_dir("/home/u"), "/home/u/.config/zed/Containers");
    assert_eq!(containers_dir("/home/u/"), "/home/u/.config/zed/Containers");
}

#[test]
fn container_paths() {
    let root = "/home/u/.config/zed/Containers";
    assert_eq!(container_dir(root, "Work"), "/home/u/.config/zed/Containers/Work");
    assert_eq!(config_file("/c/Work"), "/c/Work/config.json");
    assert_eq!(container_config_path(root, "Work"), "/home/u/.config/zed/Containers/Work/config.json");
}

#[test]
fn layout_of_new_container() {
    let layout = container_layout("/r", "Work", "my job").unwrap();
    assert_eq!(layout.container_dir, "/r/Work");
    assert_eq!(layout.config_path, "/r/Work/config.json");
    assert_eq!(layout.config.name, "Work");
    assert_eq!(layout.config.description, "my job");
    assert_eq!(layout.config.data_dir, "/r/Work/data");
    assert_eq!(layout.config.config_dir, "/r/Work/config");
    assert_eq!(layout.config.logs_dir, "/r/Work/logs");
    assert_eq!(layout.config.cache_dir, "/r/Work/cache");
}

#[test]
fn launch_path_is_the_created_config() {
    let layout = container_layout("/r", "Work", "").unwrap();
    assert_eq!(container_config_path("/r", "Work"), layout.config_path);
}

#[test]
fn empty_name_is_refused() {
    assert_eq!(container_layout("/r", "", "x"), Err(ContainerError::EmptyName));
    assert_eq!(ContainerError::EmptyName.message(), "Container name cannot be empty");
}

#[test]
fn already_exists_message() {
    assert_eq!(require_absent("Work", false), Ok(()));
    let e = require_absent("Work", true).unwrap_err();
    assert_eq!(e, ContainerError::AlreadyExists("Work".to_string()));
    assert_eq!(e.message(), "Container 'Work' already exists");
}

#[test]
fn deletion_only_strictly_inside() {
    let root = "/r";
    assert_eq!(deletion_dir(root, "Work"), Ok("/r/Work".to_string()));
    assert_eq!(deletion_dir(root, "a/b"), Ok("/r/a/b".to_string()));
    assert_eq!(deletion_dir(root, "x/"), Ok("/r/x/".to_string()));
    assert_eq!(deletion_dir(root, "a/../b"), Ok("/r/a/../b".to_string()));
    assert_eq!(deletion_dir(root, "./a"), Ok("/r/./a".to_string()));
    assert_eq!(deletion_dir(root, "..."), Ok("/r/...".to_string()));
    assert_eq!(deletion_dir(root, "/r/Work"), Ok("/r/Work".to_string()));
    assert_eq!(deletion_dir("/r/", "/r/Work"), Ok("/r/Work".to_string()));
    for bad in ["", ".", "..", "a/..", "../x", "a/../..", "./", "/etc", "/r", "/r/", "/rx/a", "/r/../x"] {
        assert_eq!(deletion_dir(root, bad), Err(ContainerError::InvalidName(bad.to_string())), "{:?}", bad);
    }
    assert_eq!(deletion_dir("", "/a"), Err(ContainerError::InvalidName("/a".to_string())));
    assert_eq!(deletion_dir("", "a"), Ok("a".to_string()));
    assert_eq!(
        ContainerError::InvalidName("..".to_string()).message(),
        "Invalid container name '..'"
    );
}

#[test]
fn sort_is_by_name_and_stable() {
    let input = vec![config("b", "1"), config("a", "1"), config("b", "2"), config("B", "1"), config("a", "2")];
    let sorted = sort_by_name(input);
    let got: Vec<(String, String)> = sorted.iter().map(|c| (c.name.clone(), c.description.clone())).collect();
    let expected: Vec<(String, String)> = [("B", "1"), ("a", "1"), ("a", "2"), ("b", "1"), ("b", "2")]
        .iter()
        .map(|(n, d)| (n.to_string(), d.to_string()))
        .collect();
    assert_eq!(got, expected);
}

#[test]
fn sorted_input_is_unchanged() {
    let input = vec![config("a", ""), config("b", ""), config("c", "")];
    assert_eq!(sort_by_name(input.clone()), input);
}

#[test]
fn collect_skips_unreadable_and_sorts() {
    let found = vec![Some(config("Zeta", "")), None, Some(config("Alpha", "")), None];
    let listed = collect_containers(found);
    assert_eq!(listed, vec![config("Alpha", ""), config("Zeta", "")]);
    assert_eq!(collect_containers(Vec::new()), Vec::<ContainerConfig>::new());
}

#[test]
fn expanded_paths() {
    let c = config("Work", "");
    let p = expanded_container_paths(&c, "/home/u");
    assert_eq!(p.data_dir, "/home/u/Work/data");
    assert_eq!(p.config_dir, "/home/u/Work/config");
    assert_eq!(p.logs_dir, "/var/log/Work");
    assert_eq!(p.cache_dir, "/home/u/Work/cache");
    let mut home = c.clone();
    home.cache_dir = "~".to_string();
    home.data_dir = "~other/x".to_string();
    let p = expanded_container_paths(&home, "/home/u");
    assert_eq!(p.cache_dir, "/home/u");
    assert_eq!(p.data_dir, "~other/x");
}

#[test]
fn creation_steps_in_order() {
    let layout = container_layout("/r", "Work", "").unwrap();
    assert_eq!(
        layout.steps("/r"),
        vec![
            CreationStep::CreateDir("/r".to_string()),
            CreationStep::RequireAbsent("/r/Work".to_string()),
            CreationStep::CreateDir("/r/Work/data".to_string()),
            CreationStep::CreateDir("/r/Work/config".to_string()),
            CreationStep::CreateDir("/r/Work/logs".to_string()),
            CreationStep::CreateDir("/r/Work/cache".to_string()),
            CreationStep::WriteConfig("/r/Work/config.json".to_string()),
        ]
    );
}
