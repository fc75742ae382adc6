//! Finding the source of templates.
use django_templates::dict::Dict;
use django_templates::loaders::{
    abspath, app_template_dir, confine, existing_dirs, note_missing, safe_join, AppDirsLoader,
    AppPath, CachedLoader, Encoding, ExternalLoader, FileSystemLoader, Files, LoadFault, Loader,
    LoaderError, LocMemLoader, SourceBytes,
};
use django_templates::render::context::TemplateRef;
use django_templates::types::PyObject;
use std::cell::RefCell;
use std::path::{absolute, Path, PathBuf};

/// The current directory.
fn current_dir() -> PathBuf {
    let mut path = absolute("x").unwrap();
    path.pop();
    path
}

fn join(path: &str, template_name: &str) -> Option<PathBuf> {
    safe_join(&Disk::new(), &PathBuf::from(path), template_name)
}

fn expected(name: &str) -> PathBuf {
    let mut expected = current_dir();
    expected.push("tests/templates");
    expected.push(name);
    expected
}

fn missing(path: &Path) -> (String, String) {
    (path.display().to_string(), "Source does not exist".to_string())
}

fn encoding(label: &str) -> Option<Encoding> {
    Encoding::for_label(label.to_string())
}

fn utf8() -> Encoding {
    encoding("utf-8").unwrap()
}

fn templates() -> FileSystemLoader {
    FileSystemLoader::new(vec![PathBuf::from("tests/templates")], utf8())
}

/// Files with given bytes, and the templates that were compiled from them.
struct Disk {
    files: Vec<(PathBuf, &'static [u8])>,
    dirs: Result<Vec<PathBuf>, PyObject>,
    current_dir: Option<PathBuf>,
    compiled: RefCell<Vec<(String, PathBuf, String)>>,
}

impl Disk {
    fn new() -> Self {
        Disk {
            files: vec![
                (expected("basic.txt"), b"Hello"),
                (expected("invalid.txt"), b"\x80"),
                (expected("faulty.txt"), b"{% faulty %}"),
            ],
            dirs: Ok(vec![PathBuf::from("tests/templates"), PathBuf::from("/auth/templates")]),
            current_dir: Some(current_dir()),
            compiled: RefCell::new(vec![]),
        }
    }

    /// The path of a template.
    fn filename(&self, template: TemplateRef) -> PathBuf {
        self.compiled.borrow()[template.id as usize].1.clone()
    }

    /// The text of a template.
    fn text(&self, template: TemplateRef) -> String {
        self.compiled.borrow()[template.id as usize].0.clone()
    }
}

impl Files for Disk {
    fn current_dir(&self) -> Option<PathBuf> {
        self.current_dir.clone()
    }

    fn read(&self, path: &PathBuf) -> Option<SourceBytes> {
        let file = self.files.iter().find(|(name, _)| name == path)?;
        SourceBytes::new(file.1.to_vec())
    }

    fn app_template_dirs(&self) -> Result<Vec<PathBuf>, PyObject> {
        self.dirs.clone()
    }

    fn compile(
        &self,
        text: &String,
        path: &PathBuf,
        template_name: &str,
    ) -> Result<TemplateRef, PyObject> {
        if text.contains("faulty") {
            return Err(PyObject { id: 3 });
        }
        let mut compiled = self.compiled.borrow_mut();
        compiled.push((text.clone(), path.clone(), template_name.to_string()));
        Ok(TemplateRef { id: compiled.len() as u64 - 1 })
    }
}

fn unicode_error(name: &str) -> LoadFault {
    let path = expected(name);
    LoadFault::Unicode(format!("Could not open {} with UTF-8 encoding.", path.display()))
}

#[test]
fn test_filesystem_loader() {
    let disk = Disk::new();
    let template = templates().get_template(&disk, "basic.txt").unwrap().unwrap();
    assert_eq!(disk.filename(template), expected("basic.txt"));
    assert_eq!(disk.text(template), "Hello");
}

#[test]
fn test_filesystem_loader_missing_template() {
    let error = templates().get_template(&Disk::new(), "missing.txt").unwrap_err();
    assert_eq!(error, LoaderError { tried: vec![missing(&expected("missing.txt"))] });
}

#[test]
fn test_filesystem_loader_invalid_encoding() {
    let error = templates().get_template(&Disk::new(), "invalid.txt").unwrap().unwrap_err();
    assert_eq!(error, unicode_error("invalid.txt"));
}

fn cached() -> CachedLoader {
    CachedLoader::new(vec![Loader::FileSystem(templates())])
}

#[test]
fn test_cached_loader() {
    let disk = Disk::new();
    let mut loader = cached();
    assert_eq!(loader.cached_count(), 0);
    let template = loader.get_template(&disk, "basic.txt").unwrap().unwrap();
    assert_eq!(disk.filename(template), expected("basic.txt"));
    assert_eq!(loader.cached_count(), 1);
    assert_eq!(loader.recall("basic.txt"), Some(Ok(template)));

    let again = loader.get_template(&disk, "basic.txt").unwrap().unwrap();
    assert_eq!(disk.filename(again), expected("basic.txt"));
    assert_eq!(loader.cached_count(), 1);
    assert_eq!(loader.recall("basic.txt"), Some(Ok(template)));
    assert_eq!(disk.compiled.borrow().len(), 1);
}

#[test]
fn test_cached_loader_missing_template() {
    let mut loader = cached();
    let expected_err = || LoaderError { tried: vec![missing(&expected("missing.txt"))] };
    let error = loader.get_template(&Disk::new(), "missing.txt").unwrap_err();
    assert_eq!(error, expected_err());
    assert_eq!(loader.recall("missing.txt"), Some(Err(expected_err())));
    let error = loader.get_template(&Disk::new(), "missing.txt").unwrap_err();
    assert_eq!(error, expected_err());
}

#[test]
fn test_cached_loader_invalid_encoding() {
    let mut loader = cached();
    let error = loader.get_template(&Disk::new(), "invalid.txt").unwrap().unwrap_err();
    assert_eq!(error, unicode_error("invalid.txt"));
    assert_eq!(loader.cached_count(), 0);
}

#[test]
fn searches_under_other_names_are_kept_apart() {
    let disk = Disk::new();
    let mut loader = cached();
    let template = loader.get_template(&disk, "basic.txt").unwrap().unwrap();
    loader.get_template(&disk, "missing.txt").unwrap_err();
    assert_eq!(loader.cached_count(), 2);
    assert_eq!(loader.recall("basic.txt"), Some(Ok(template)));
    assert_eq!(loader.recall("other.txt"), None);
}

#[test]
fn loaders_are_asked_in_turn() {
    let disk = Disk::new();
    let mut texts = Dict::new();
    texts.insert("index.html".to_string(), "index".to_string());
    let loaders =
        vec![Loader::FileSystem(templates()), Loader::LocMem(LocMemLoader::new(texts))];
    let mut loader = Loader::Cached(CachedLoader::new(loaders));
    let template = loader.get_template(&disk, "index.html").unwrap().unwrap();
    assert_eq!(disk.text(template), "index");
    let template = loader.get_template(&disk, "basic.txt").unwrap().unwrap();
    assert_eq!(disk.text(template), "Hello");
    let error = loader.get_template(&disk, "missing.txt").unwrap_err();
    let in_memory = ("missing.txt".to_string(), "Source does not exist".to_string());
    assert_eq!(
        error,
        LoaderError { tried: vec![missing(&expected("missing.txt")), in_memory] }
    );
}

#[test]
fn a_fault_of_python_ends_the_search() {
    let mut loader = cached();
    let error = loader.get_template(&Disk::new(), "faulty.txt").unwrap().unwrap_err();
    assert_eq!(error, LoadFault::PyErr(PyObject { id: 3 }));
    assert_eq!(loader.recall("faulty.txt"), None);
}

#[test]
fn loaders_in_python_are_not_supported() {
    let mut loader = Loader::External(ExternalLoader {});
    let error = loader.get_template(&Disk::new(), "basic.txt").unwrap().unwrap_err();
    assert_eq!(error, LoadFault::Unsupported);
}

#[test]
fn test_locmem_loader() {
    let disk = Disk::new();
    let mut texts = Dict::new();
    texts.insert("index.html".to_string(), "index".to_string());
    let loader = LocMemLoader::new(texts);
    let template = loader.get_template(&disk, "index.html").unwrap().unwrap();
    assert_eq!(disk.text(template), "index".to_string());
    assert_eq!(disk.filename(template), PathBuf::from("index.html"));
    assert_eq!(loader.get_source("index.html").unwrap(), "index".to_string());
}

#[test]
fn test_locmem_loader_missing_template() {
    let loader = LocMemLoader::new(Dict::new());
    let error = loader.get_template(&Disk::new(), "index.html").unwrap_err();
    assert_eq!(
        error,
        LoaderError {
            tried: vec![("index.html".to_string(), "Source does not exist".to_string())],
        }
    );
}

fn app_dirs() -> AppDirsLoader {
    AppDirsLoader::new(utf8())
}

#[test]
fn test_appdirs_loader() {
    let disk = Disk::new();
    let template = app_dirs().get_template(&disk, "basic.txt").unwrap().unwrap();
    assert_eq!(disk.filename(template), expected("basic.txt"));
}

#[test]
fn test_appdirs_loader_missing_template() {
    let error = app_dirs().get_template(&Disk::new(), "missing.txt").unwrap_err();
    assert_eq!(
        error,
        LoaderError {
            tried: vec![
                missing(&expected("missing.txt")),
                missing(&PathBuf::from("/auth/templates/missing.txt")),
            ],
        }
    );
}

#[test]
fn test_appdirs_loader_invalid_encoding() {
    let error = app_dirs().get_template(&Disk::new(), "invalid.txt").unwrap().unwrap_err();
    assert_eq!(error, unicode_error("invalid.txt"));
}

#[test]
fn directories_of_applications_may_be_an_error() {
    let mut disk = Disk::new();
    disk.dirs = Err(PyObject { id: 8 });
    let error = app_dirs().get_template(&disk, "basic.txt").unwrap().unwrap_err();
    assert_eq!(error, LoadFault::PyErr(PyObject { id: 8 }));
}

#[test]
fn test_get_app_template_dir_special_cases() {
    let none = AppPath { is_truthy: Ok(false), path: Err(PyObject { id: 1 }) };
    assert_eq!(app_template_dir(&none, "templates"), Ok(None));

    let number = AppPath { is_truthy: Ok(true), path: Err(PyObject { id: 1 }) };
    assert!(app_template_dir(&number, "templates").is_err());

    let broken = AppPath { is_truthy: Err(PyObject { id: 2 }), path: Ok(PathBuf::from("tests")) };
    assert_eq!(app_template_dir(&broken, "templates"), Err(PyObject { id: 2 }));
}

#[test]
fn test_get_app_template_dir_with_str() {
    let current = AppPath { is_truthy: Ok(true), path: Ok(PathBuf::from(".")) };
    let dir = app_template_dir(&current, "nonexistent").unwrap();
    assert_eq!(existing_dirs(vec![(dir, false)]).len(), 0);

    let tests = AppPath { is_truthy: Ok(true), path: Ok(PathBuf::from("tests")) };
    let dir = app_template_dir(&tests, "templates").unwrap();
    let dirs = existing_dirs(vec![(dir, true), (None, true)]);
    assert_eq!(dirs.len(), 1);
    assert_eq!(dirs[0], PathBuf::from("tests").join("templates"));
}

#[test]
fn test_get_app_template_dir_with_pathlib() {
    let current = AppPath { is_truthy: Ok(true), path: Ok(PathBuf::from(".")) };
    let dir = app_template_dir(&current, "nonexistent").unwrap();
    assert_eq!(existing_dirs(vec![(dir, false)]), Vec::<PathBuf>::new());

    let tests = AppPath { is_truthy: Ok(true), path: Ok(PathBuf::from("tests")) };
    let dir = app_template_dir(&tests, "templates").unwrap().unwrap();
    assert_eq!(dir, PathBuf::from("tests").join("templates"));
}

#[test]
fn test_get_app_template_dirs() {
    let paths = [current_dir().join("tests"), PathBuf::from("/auth"), PathBuf::from("/other")];
    let candidates: Vec<(Option<PathBuf>, bool)> = paths
        .into_iter()
        .enumerate()
        .map(|(i, path)| {
            let app = AppPath { is_truthy: Ok(true), path: Ok(path) };
            (app_template_dir(&app, "templates").unwrap(), i < 2)
        })
        .collect();
    let dirs = existing_dirs(candidates);
    assert_eq!(dirs.len(), 2);
    let mut expected = current_dir();
    expected.push("tests/templates");
    assert_eq!(dirs[0], expected);
}

#[test]
fn test_safe_join_absolute() {
    assert_eq!(join("/abc/", "def").unwrap(), PathBuf::from("/abc/def"));
}

#[test]
fn test_safe_join_relative() {
    let mut expected = current_dir();
    expected.push("abc/def");
    assert_eq!(join("abc", "def").unwrap(), expected);
}

#[test]
fn test_safe_join_absolute_starts_with_sep() {
    assert_eq!(join("/abc/", "/def"), None);
}

#[test]
fn test_safe_join_relative_starts_with_sep() {
    assert_eq!(join("abc", "/def"), None);
}

#[test]
fn test_safe_join_absolute_parent() {
    assert_eq!(join("/abc/", "../def"), None);
}

#[test]
fn test_safe_join_relative_parent() {
    assert_eq!(join("abc", "../def"), None);
}

#[test]
fn test_safe_join_absolute_parent_starts_with_sep() {
    assert_eq!(join("/abc/", "/../def"), None);
}

#[test]
fn test_safe_join_relative_parent_starts_with_sep() {
    assert_eq!(join("abc", "/../def"), None);
}

#[test]
fn test_safe_join_django_example() {
    assert_eq!(join("/dir", "/../d"), None);
}

#[test]
fn test_safe_join_django_example_variant() {
    assert_eq!(join("/dir", "/../directory"), None);
}

#[test]
fn test_safe_join_empty_path() {
    let mut expected = current_dir();
    expected.push("directory");
    assert_eq!(join("", "directory").unwrap(), expected);
}

#[test]
fn test_safe_join_empty_path_and_template_name() {
    assert_eq!(join("", "").unwrap(), current_dir());
}

#[test]
fn test_safe_join_parent_and_empty_template_name() {
    let mut expected = current_dir();
    expected.pop();
    assert_eq!(join("..", "").unwrap(), expected);
}

#[test]
fn no_current_directory_gives_no_path() {
    let mut disk = Disk::new();
    disk.current_dir = None;
    assert_eq!(safe_join(&disk, &PathBuf::new(), "x"), None);
    assert_eq!(abspath(&disk, &PathBuf::new()), None);
    assert_eq!(abspath(&disk, &PathBuf::from("/a/./b/../c")), Some(PathBuf::from("/a/c")));
}

#[test]
fn sibling_directories_are_not_within() {
    assert_eq!(join("/abc", "../abcdef/x"), None);
    assert_eq!(join("/abc", "x/../y").unwrap(), PathBuf::from("/abc/y"));
    assert_eq!(confine(PathBuf::from("/abc/x"), false), None);
    assert_eq!(confine(PathBuf::from("/abc/x"), true), Some(PathBuf::from("/abc/x")));
}

fn bytes(bytes: &[u8]) -> SourceBytes {
    SourceBytes::new(bytes.to_vec()).unwrap()
}

#[test]
fn files_are_decoded_by_their_label() {
    let latin = FileSystemLoader::new(vec![], encoding("latin1").unwrap());
    assert_eq!(latin.decode("x", &bytes(&[0xe9, 0x21])), Ok("\u{e9}!".to_string()));
    assert!(encoding("no-such").is_none());
    assert_eq!(
        templates().decode("x", &bytes(&[0x21, 0xff])),
        Err("Could not open x with UTF-8 encoding.".to_string())
    );
    let utf8 = templates();
    assert_eq!(utf8.decode("x", &bytes(b"\xef\xbb\xbfabc")), Ok("abc".to_string()));
}

#[test]
fn directories_outside_are_passed_over() {
    let loader = FileSystemLoader::new(
        vec![PathBuf::from("/a"), PathBuf::from("/b/c")],
        utf8(),
    );
    let error = loader.get_template(&Disk::new(), "/b/c/x").unwrap_err();
    assert_eq!(error, LoaderError { tried: vec![missing(&PathBuf::from("/b/c/x"))] });
}

#[test]
fn attempts_are_noted() {
    let mut tried = vec![];
    note_missing(&mut tried, "a/b".to_string());
    assert_eq!(tried, vec![missing(&PathBuf::from("a/b"))]);
}
