use ml2::mods::{
    current_file, logo_file_name, logo_file_path, logo_name_from_path, main_file_path,
    manifest_path, manifest_uri, Error, Mod, ModFile, User,
};

fn mod_file(id: &str, filename: &str) -> ModFile {
    ModFile {
        id: id.to_string(),
        created_at: 1_650_000_000_000,
        filename: filename.to_string(),
        downloads: 3,
        download_url: format!("https://example.test/files/{}", filename),
    }
}

fn manifest(files: Vec<ModFile>, logo: Option<&str>) -> Mod {
    Mod {
        name: "A Mod".to_string(),
        slug: "a-mod".to_string(),
        self_url: "https://example.test/mods/a-mod".to_string(),
        submitter: User { username: "someone".to_string() },
        collaborators: vec![],
        description: String::new(),
        mod_type: 1,
        game: 2,
        logo: logo.map(|l| l.to_string()),
        details: String::new(),
        comments_allowed: true,
        is_listed: true,
        adult_content: false,
        mod_files: files,
    }
}

#[test]
fn manifest_path_for_code() {
    assert_eq!(manifest_path("/", "abc123"), "/api/mods/abc123");
    assert_eq!(manifest_path("", "abc123"), "/api/mods/abc123");
    assert_eq!(manifest_path("/prefix", "abc123"), "/prefix/api/mods/abc123");
}

#[test]
fn manifest_uri_keeps_root_prefix() {
    assert_eq!(
        manifest_uri("https://spelunky.fyi", "abc123"),
        Ok("https://spelunky.fyi/api/mods/abc123".to_string())
    );
    assert_eq!(
        manifest_uri("https://example.test/root", "abc123"),
        Ok("https://example.test/root/api/mods/abc123".to_string())
    );
    assert!(matches!(manifest_uri("not a uri", "abc123"), Err(Error::InvalidUri(_))));
}

#[test]
fn first_file_is_current() {
    let m = manifest(vec![mod_file("f1", "mod.zip"), mod_file("f0", "old.zip")], None);
    assert_eq!(current_file(&m), Ok(mod_file("f1", "mod.zip")));
}

#[test]
fn manifest_without_files_is_refused() {
    let m = manifest(vec![], None);
    assert!(matches!(current_file(&m), Err(Error::UnknownError(_))));
}

#[test]
fn main_file_lands_in_staging_dir() {
    assert_eq!(main_file_path("/tmp/stage", &mod_file("f1", "mod.zip")), "/tmp/stage/mod.zip");
}

#[test]
fn logo_name_from_url() {
    assert_eq!(logo_file_name("https://cdn.example.test/logos/abc/logo.png"), Ok("logo.png".to_string()));
    assert!(matches!(logo_file_name("https://cdn.example.test/"), Err(Error::UnknownError(_))));
    assert!(matches!(logo_file_name("not a uri"), Err(Error::InvalidUri(_))));
}

#[test]
fn logo_name_from_parsed_path() {
    assert_eq!(logo_name_from_path(Some("/a/b/c.jpg".to_string())), Ok("c.jpg".to_string()));
    assert!(matches!(logo_name_from_path(Some("/".to_string())), Err(Error::UnknownError(_))));
    assert!(matches!(logo_name_from_path(None), Err(Error::InvalidUri(_))));
}

#[test]
fn logo_path_in_staging_dir() {
    assert_eq!(logo_file_path("/tmp/stage", &None), Ok(None));
    assert_eq!(
        logo_file_path("/tmp/stage", &Some("https://cdn.example.test/l/logo.webp".to_string())),
        Ok(Some("/tmp/stage/logo.webp".to_string()))
    );
}
