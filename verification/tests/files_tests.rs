use kubeyamyam::files::is_manifest_file_name;

#[test]
fn manifest_file_names() {
    assert!(is_manifest_file_name("deploy.yaml"));
    assert!(is_manifest_file_name("DEPLOY.YML"));
    assert!(is_manifest_file_name("nginx.yaml.j2"));
    assert!(!is_manifest_file_name("nginx.yml.j2"));
    assert!(!is_manifest_file_name("readme.md"));
    assert!(!is_manifest_file_name(""));
}

use kubeyamyam::files::{select_manifest_files, PathPart};

fn parts(path: &str) -> Vec<PathPart> {
    let mut v = vec![PathPart { kind: 1, bytes: vec![b'/'] }];
    for c in path.split('/').filter(|c| !c.is_empty()) {
        v.push(PathPart { kind: 4, bytes: c.as_bytes().to_vec() });
    }
    v
}

#[test]
fn manifests_are_selected_in_path_order_without_repeats() {
    let paths = ["/r/b.yaml", "/r/a-b.yaml", "/r/a/x.yml", "/r/readme.md", "/r/b.yaml", "/r/C.YAML"];
    let names: Vec<String> = paths.iter().map(|p| p.rsplit('/').next().unwrap().to_string()).collect();
    let keys: Vec<Vec<PathPart>> = paths.iter().map(|p| parts(p)).collect();
    let picked = select_manifest_files(&names, &keys);
    let chosen: Vec<&str> = picked.iter().map(|&i| paths[i]).collect();
    assert_eq!(chosen, vec!["/r/C.YAML", "/r/a/x.yml", "/r/a-b.yaml", "/r/b.yaml"]);
}
