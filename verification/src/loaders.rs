//! Finding the source of templates.
//!
//! What only the file system and Python can do is left to an implementation of [`Files`].
use std::path::PathBuf;
use sugar_path::SugarPath;
use vstd::prelude::*;
use vstd::string::*;
use crate::dict::{views, Dict, Duplicate};
use crate::render::context::TemplateRef;
use crate::types::PyObject;

verus! {

/// A place where a template was looked for, and why it was not found there.
pub type Attempt = (String, String);

/// A template that was not found, and where it was looked for.
#[derive(Debug, PartialEq, Eq)]
pub struct LoaderError {
    pub tried: Vec<Attempt>,
}

impl View for LoaderError {
    type V = Seq<(Seq<char>, Seq<char>)>;

    open spec fn view(&self) -> Seq<(Seq<char>, Seq<char>)> {
        views(self.tried@)
    }
}

impl Duplicate for LoaderError {
    fn duplicate(&self) -> (r: Self) {
        let mut tried: Vec<Attempt> = Vec::new();
        append_attempts(&mut tried, &self.tried);
        assert(views(tried@) =~= views(self.tried@));
        LoaderError { tried }
    }
}

/// Adds attempts to others.
fn append_attempts(tried: &mut Vec<Attempt>, more: &Vec<Attempt>)
    ensures
        views(final(tried)@) == views(old(tried)@) + views(more@),
{
    let ghost before = views(tried@);
    let mut i: usize = 0;
    assert(before + views(more@).take(0) =~= before);
    while i < more.len()
        invariant
            0 <= i <= more@.len(),
            views(tried@) == before + views(more@).take(i as int),
        decreases more@.len() - i,
    {
        let attempt = (more[i].0.clone(), more[i].1.clone());
        let ghost previous = tried@;
        tried.push(attempt);
        assert(views(tried@) =~= views(previous).push(attempt@));
        i += 1;
        assert(views(tried@) =~= before + views(more@).take(i as int));
    }
    assert(views(more@).take(i as int) =~= views(more@));
}

/// A path in the syntax of the machine, which need not be text.
#[verifier::external_type_specification]
#[verifier::external_body]
pub struct ExPathBuf(std::path::PathBuf);

/// `OsStr::is_empty` tells whether a path is empty; nothing is known of a path here but what is
/// asked of it.
#[verifier::external_body]
fn is_empty_path(path: &PathBuf) -> (r: bool) {
    path.as_os_str().is_empty()
}

/// `std::path::absolute` gives a path that starts at the root, if it can; what that is depends on
/// the machine.
#[verifier::external_body]
fn absolute(path: &PathBuf) -> (r: Option<PathBuf>) {
    std::path::absolute(path).ok()
}

/// `SugarPath::normalize` resolves the components `.` and `..` of a path in the syntax of the
/// machine, on which the outcome depends.
#[verifier::external_body]
fn normalize(path: &PathBuf) -> (r: PathBuf) {
    path.normalize().into_owned()
}

/// `Path::join` puts two paths together in the syntax of the machine, on which the outcome
/// depends.
#[verifier::external_body]
fn join_paths(directory: &PathBuf, name: &str) -> (r: PathBuf) {
    directory.join(name)
}

/// `Path::starts_with` tells whether the components of a directory are the first ones of a path, in
/// the syntax of the machine, on which the outcome depends.
#[verifier::external_body]
fn starts_with(path: &PathBuf, directory: &PathBuf) -> (r: bool) {
    path.starts_with(directory)
}

/// `Path::display` writes a path; what it writes in place of what is not text is left to the
/// machine.
#[verifier::external_body]
fn path_text(path: &PathBuf) -> (r: String) {
    path.display().to_string()
}

/// `PathBuf::from` takes a text for a path in the syntax of the machine.
#[verifier::external_body]
fn path_of(name: &str) -> (r: PathBuf) {
    PathBuf::from(name)
}

/// What is written of a path may be a text.
pub closed spec fn shown_as(path: PathBuf, text: String) -> bool {
    call_ensures(path_text, (&path,), text)
}

/// A path may be the one that a text stands for.
pub closed spec fn stands_for(name: &str, path: PathBuf) -> bool {
    call_ensures(path_of, (name,), path)
}

/// A path may be that of a name behind a directory.
pub closed spec fn lies_behind(directory: PathBuf, name: &str, path: PathBuf) -> bool {
    call_ensures(join_paths, (&directory, name), path)
}

/// A path may be said to be that of a directory, or of something within it, or not to be.
pub closed spec fn said_within(directory: PathBuf, path: PathBuf, inside: bool) -> bool {
    call_ensures(starts_with, (&path, &directory), inside)
}

/// What a path may become once it starts at the root and holds neither `.` nor `..`: an empty one
/// becomes the current directory.
pub closed spec fn may_become<F: Files>(
    files: &F,
    path: PathBuf,
    outcome: Option<PathBuf>,
) -> bool {
    exists|empty: bool|
        {
            &&& #[trigger] call_ensures(is_empty_path, (&path,), empty)
            &&& if empty {
                call_ensures(F::current_dir, (files,), outcome)
            } else {
                exists|from_root: Option<PathBuf>|
                    {
                        &&& #[trigger] call_ensures(absolute, (&path,), from_root)
                        &&& match (from_root, outcome) {
                            (Some(from_root), Some(result)) => call_ensures(
                                normalize,
                                (&from_root,),
                                result,
                            ),
                            (None, None) => true,
                            _ => false,
                        }
                    }
            }
        }
}

/// A path that starts at the root and holds neither `.` nor `..`: the current directory for an
/// empty one.
pub fn abspath<F: Files>(files: &F, path: &PathBuf) -> (r: Option<PathBuf>)
    ensures
        may_become(files, *path, r),
{
    let empty = is_empty_path(path);
    assert(call_ensures(is_empty_path, (path,), empty));
    if empty {
        return files.current_dir();
    }
    let from_root = absolute(path);
    assert(call_ensures(absolute, (path,), from_root));
    match from_root {
        Some(from_root) => Some(normalize(&from_root)),
        None => None,
    }
}

/// A path, if it is said to lie within a directory.
pub fn confine(path: PathBuf, inside: bool) -> (r: Option<PathBuf>)
    ensures
        r == (if inside {
            Some(path)
        } else {
            None
        }),
{
    if inside {
        Some(path)
    } else {
        None
    }
}

/// What becomes of a path, once it starts at the root, and of a directory: the path, if it lies
/// within the directory.
pub open spec fn may_confine<F: Files>(
    files: &F,
    path: PathBuf,
    directory: PathBuf,
    outcome: Option<PathBuf>,
) -> bool {
    exists|dir: Option<PathBuf>|
        {
            &&& #[trigger] may_become(files, directory, dir)
            &&& match dir {
                None => outcome is None,
                Some(dir) => exists|inside: bool|
                    {
                        &&& #[trigger] said_within(dir, path, inside)
                        &&& outcome == (if inside {
                            Some(path)
                        } else {
                            None
                        })
                    },
            }
        }
}

/// What putting the name of a template behind a directory may give: the path, if it lies within
/// the directory.
pub open spec fn may_join<F: Files>(
    files: &F,
    directory: PathBuf,
    template_name: &str,
    outcome: Option<PathBuf>,
) -> bool {
    exists|joined: PathBuf, path: Option<PathBuf>|
        {
            &&& #[trigger] lies_behind(directory, template_name, joined)
            &&& #[trigger] may_become(files, joined, path)
            &&& match path {
                None => outcome is None,
                Some(path) => may_confine(files, path, directory, outcome),
            }
        }
}

/// Whatever joining gives is the path that the name behind the directory becomes, and lies within
/// the directory.
pub proof fn law_joined_paths_lie_within<F: Files>(
    files: &F,
    directory: PathBuf,
    template_name: &str,
    outcome: PathBuf,
)
    requires
        may_join(files, directory, template_name, Some(outcome)),
    ensures
        exists|joined: PathBuf|
            {
                &&& #[trigger] lies_behind(directory, template_name, joined)
                &&& may_become(files, joined, Some(outcome))
            },
        exists|dir: PathBuf|
            {
                &&& may_become(files, directory, Some(dir))
                &&& #[trigger] said_within(dir, outcome, true)
            },
{
}

/// A name whose path lies within the directory is joined to it.
pub proof fn law_paths_within_are_joined<F: Files>(
    files: &F,
    directory: PathBuf,
    template_name: &str,
    path: PathBuf,
    dir: PathBuf,
    inside: bool,
    outcome: Option<PathBuf>,
)
    requires
        may_join(files, directory, template_name, outcome),
        forall|joined: PathBuf, p: Option<PathBuf>| #[trigger]
            lies_behind(directory, template_name, joined) && #[trigger] may_become(
                files,
                joined,
                p,
            ) ==> p == Some(path),
        forall|d: Option<PathBuf>| #[trigger]
            may_become(files, directory, d) ==> d == Some(dir),
        forall|said: bool| #[trigger] said_within(dir, path, said) ==> said == inside,
    ensures
        outcome == (if inside {
            Some(path)
        } else {
            None
        }),
{
}

/// The path of a template within a directory, unless it lies outside.
pub fn safe_join<F: Files>(files: &F, directory: &PathBuf, template_name: &str) -> (r: Option<
    PathBuf,
>)
    ensures
        may_join(files, *directory, template_name, r),
{
    let joined = join_paths(directory, template_name);
    assert(lies_behind(*directory, template_name, joined));
    let path = abspath(files, &joined);
    assert(may_become(files, joined, path));
    match path {
        None => None,
        Some(path) => {
            let ghost from_root = path;
            let dir = abspath(files, directory);
            assert(may_become(files, *directory, dir));
            let outcome = match dir {
                None => None,
                Some(dir) => {
                    let inside = starts_with(&path, &dir);
                    assert(said_within(dir, path, inside));
                    confine(path, inside)
                },
            };
            assert(may_confine(files, from_root, *directory, outcome));
            outcome
        },
    }
}

/// What the configuration of an application says of its path.
#[derive(Debug)]
pub struct AppPath {
    pub is_truthy: Result<bool, PyObject>,
    pub path: Result<PathBuf, PyObject>,
}

/// What the directory with the templates of an application may be.
pub open spec fn may_hold_templates(
    app: AppPath,
    dirname: &str,
    outcome: Result<Option<PathBuf>, PyObject>,
) -> bool {
    match app.is_truthy {
        Err(e) => outcome == Err::<Option<PathBuf>, _>(e),
        Ok(false) => outcome == Ok::<Option<PathBuf>, PyObject>(None),
        Ok(true) => match app.path {
            Err(e) => outcome == Err::<Option<PathBuf>, _>(e),
            Ok(path) => outcome matches Ok(Some(dir)) && lies_behind(path, dirname, dir),
        },
    }
}

/// The directory that is to hold the templates of an application, if it has a path.
pub fn app_template_dir(app: &AppPath, dirname: &str) -> (r: Result<Option<PathBuf>, PyObject>)
    ensures
        may_hold_templates(*app, dirname, r),
{
    match &app.is_truthy {
        Err(e) => Err(*e),
        Ok(false) => Ok(None),
        Ok(true) => match &app.path {
            Err(e) => Err(*e),
            Ok(path) => Ok(Some(join_paths(path, dirname))),
        },
    }
}

/// The directories that exist, of those that are to hold the templates of applications.
pub fn existing_dirs(candidates: Vec<(Option<PathBuf>, bool)>) -> (r: Vec<PathBuf>)
    ensures
        r@ == existing(candidates@),
{
    let ghost all = candidates@;
    let mut rest = candidates;
    let mut r: Vec<PathBuf> = Vec::new();
    assert(all.take(0) =~= Seq::empty());
    while rest.len() > 0
        invariant
            rest@.len() <= all.len(),
            rest@ == all.skip(all.len() - rest@.len()),
            r@ == existing(all.take(all.len() - rest@.len())),
        decreases rest@.len(),
    {
        let ghost next = all.take(all.len() - rest@.len() + 1);
        assert(next.drop_last() =~= all.take(all.len() - rest@.len()));
        assert(next.last() == rest@[0]);
        let (dir, exists_there) = rest.remove(0);
        if exists_there {
            if let Some(dir) = dir {
                r.push(dir);
            }
        }
    }
    assert(all.take(all.len() as int) =~= all);
    r
}

/// The directories that exist.
pub open spec fn existing(candidates: Seq<(Option<PathBuf>, bool)>) -> Seq<PathBuf>
    decreases candidates.len(),
{
    if candidates.len() == 0 {
        Seq::empty()
    } else {
        let before = existing(candidates.drop_last());
        match candidates.last() {
            (Some(dir), true) => before.push(dir),
            _ => before,
        }
    }
}

/// What is said of a file that could not be read.
pub open spec fn missing_source() -> Seq<char> {
    "Source does not exist"@
}

/// The number of bytes that decoding can cope with.
pub const MAX_SOURCE_LEN: usize = usize::MAX / 8;

/// What a file holds, if decoding can cope with it.
#[derive(Debug)]
pub struct SourceBytes {
    bytes: Vec<u8>,
}

impl View for SourceBytes {
    type V = Seq<u8>;

    closed spec fn view(&self) -> Seq<u8> {
        self.bytes@
    }
}

impl SourceBytes {
    #[verifier::type_invariant]
    spec fn is_short(self) -> bool {
        self.bytes@.len() <= MAX_SOURCE_LEN
    }

    /// What a file holds, unless that is too much.
    pub fn new(bytes: Vec<u8>) -> (r: Option<Self>)
        ensures
            match r {
                Some(source) => source@ == bytes@ && bytes@.len() <= MAX_SOURCE_LEN,
                None => bytes@.len() > MAX_SOURCE_LEN,
            },
    {
        if bytes.len() <= MAX_SOURCE_LEN {
            Some(SourceBytes { bytes })
        } else {
            None
        }
    }
}

/// There is an encoding with a label.
pub uninterp spec fn is_encoding(label: Seq<char>) -> bool;

/// `Encoding::for_label` finds an encoding for the labels that there are; it goes by its argument
/// alone.
#[verifier::external_body]
fn has_encoding(label: &str) -> (r: bool)
    ensures
        r == is_encoding(label@),
{
    encoding_rs::Encoding::for_label(label.as_bytes()).is_some()
}

/// An encoding, known by its label.
#[derive(Debug)]
pub struct Encoding {
    label: String,
}

impl View for Encoding {
    type V = Seq<char>;

    closed spec fn view(&self) -> Seq<char> {
        self.label@
    }
}

impl Encoding {
    #[verifier::type_invariant]
    spec fn is_known(self) -> bool {
        is_encoding(self.label@)
    }

    /// The encoding with a label, if there is one.
    pub fn for_label(label: String) -> (r: Option<Self>)
        ensures
            match r {
                Some(encoding) => is_encoding(label@) && encoding@ == label@,
                None => !is_encoding(label@),
            },
    {
        if has_encoding(label.as_str()) {
            Some(Encoding { label })
        } else {
            None
        }
    }

    /// Decodes what a file holds.
    fn decode(&self, source: &SourceBytes) -> (r: (String, String, bool))
        ensures
            decoding(self@, source@) == (r.0@, r.1@, r.2),
    {
        proof {
            use_type_invariant(self);
            use_type_invariant(source);
        }
        decode_bytes(self.label.as_str(), &source.bytes)
    }
}

impl Duplicate for Encoding {
    fn duplicate(&self) -> (r: Self) {
        proof {
            use_type_invariant(self);
        }
        Encoding { label: self.label.clone() }
    }
}

/// What the bytes of a file are as text in the encoding with a label: the text, the name of the
/// encoding that was used, and whether some bytes were malformed.
pub uninterp spec fn decoding(label: Seq<char>, bytes: Seq<u8>) -> (Seq<char>, Seq<char>, bool);

/// `Encoding::decode` decodes the bytes of a file in an encoding, or in the one that they start
/// with a mark of; it goes by its arguments alone.
#[verifier::external_body]
fn decode_bytes(label: &str, bytes: &Vec<u8>) -> (r: (String, String, bool))
    requires
        is_encoding(label@),
        bytes@.len() <= MAX_SOURCE_LEN,
    ensures
        decoding(label@, bytes@) == (r.0@, r.1@, r.2),
{
    let encoding = encoding_rs::Encoding::for_label(label.as_bytes()).unwrap();
    let (text, used, malformed) = encoding.decode(bytes);
    (text.into_owned(), used.name().to_owned(), malformed)
}

/// What is said of a file that cannot be decoded.
pub open spec fn decoding_message(path: Seq<char>, encoding: Seq<char>) -> Seq<char> {
    "Could not open "@ + path + " with "@ + encoding + " encoding."@
}

/// The text of a file, or what is said where it cannot be decoded.
pub open spec fn source_text(path: Seq<char>, decoded: (Seq<char>, Seq<char>, bool)) -> Result<
    Seq<char>,
    Seq<char>,
> {
    let (text, used, malformed) = decoded;
    if malformed {
        Err(decoding_message(path, used))
    } else {
        Ok(text)
    }
}

/// The text of a file, once it was decoded, or what is said where it cannot be.
pub fn conclude_decoding(path: &str, decoded: (String, String, bool)) -> (r: Result<String, String>)
    ensures
        text_of(r) == source_text(path@, (decoded.0@, decoded.1@, decoded.2)),
{
    let (text, used, malformed) = decoded;
    if !malformed {
        return Ok(text);
    }
    let mut message = "Could not open ".to_owned();
    message.append(path);
    message.append(" with ");
    message.append(used.as_str());
    message.append(" encoding.");
    Err(message)
}

/// Finds templates in directories.
#[derive(Debug)]
pub struct FileSystemLoader {
    dirs: Vec<PathBuf>,
    encoding: Encoding,
}

impl FileSystemLoader {
    /// The label of the encoding of the files.
    pub closed spec fn label(self) -> Seq<char> {
        self.encoding@
    }

    /// The directories, in the order in which they are searched.
    pub closed spec fn search_path(self) -> Seq<PathBuf> {
        self.dirs@
    }

    /// A loader from directories, whose files are in an encoding.
    pub fn new(dirs: Vec<PathBuf>, encoding: Encoding) -> (r: Self)
        ensures
            r.search_path() == dirs@,
            r.label() == encoding@,
    {
        FileSystemLoader { dirs, encoding }
    }

    /// A loader from directories, whose files are in an encoding.
    pub fn from_pathbuf(dirs: Vec<PathBuf>, encoding: Encoding) -> (r: Self)
        ensures
            r.search_path() == dirs@,
            r.label() == encoding@,
    {
        FileSystemLoader { dirs, encoding }
    }

    /// The text of a file, or what is said where it cannot be decoded.
    pub fn decode(&self, path: &str, source: &SourceBytes) -> (r: Result<String, String>)
        ensures
            text_of(r) == source_text(path@, decoding(self.label(), source@)),
    {
        conclude_decoding(path, self.encoding.decode(source))
    }

    /// Looks for a template in the directories, one after the other.
    pub fn get_template<F: Files>(&self, files: &F, template_name: &str) -> (r: Found)
        ensures
            found_in(
                files,
                self.search_path(),
                self.label(),
                template_name,
                Seq::empty(),
                r,
            ),
    {
        let mut tried: Vec<Attempt> = Vec::new();
        let ghost label = self.label();
        let ghost dirs = self.dirs@;
        let mut i: usize = 0;
        assert(views(tried@) =~= Seq::empty());
        assert(dirs.skip(0) =~= dirs);
        while i < self.dirs.len()
            invariant
                0 <= i <= dirs.len(),
                dirs == self.dirs@,
                label == self.label(),
                forall|outcome: Found| #[trigger]
                    found_in(
                        files,
                        dirs.skip(i as int),
                        label,
                        template_name,
                        views(tried@),
                        outcome,
                    ) ==> found_in(files, dirs, label, template_name, Seq::empty(), outcome),
            decreases dirs.len() - i,
        {
            let ghost rest = dirs.skip(i as int);
            assert(rest.drop_first() =~= dirs.skip(i + 1));
            assert(rest[0] == dirs[i as int]);
            let path = safe_join(files, &self.dirs[i], template_name);
            let ghost joined = path;
            let ghost before = views(tried@);
            assert(may_join(files, rest[0], template_name, joined));
            if let Some(path) = path {
                let shown = path_text(&path);
                assert(shown_as(path, shown));
                let source = files.read(&path);
                assert(call_ensures(F::read, (files, &path), source));
                match source {
                    Some(source) => {
                        let text = self.decode(shown.as_str(), &source);
                        let outcome = compile(files, text, &path, template_name);
                        assert(found_in(files, rest, label, template_name, views(tried@), outcome));
                        return outcome;
                    },
                    None => {
                        note_missing(&mut tried, shown);
                    },
                }
            }
            assert forall|outcome: Found| #[trigger]
                found_in(
                    files,
                    dirs.skip(i + 1),
                    label,
                    template_name,
                    views(tried@),
                    outcome,
                ) implies found_in(files, dirs, label, template_name, Seq::empty(), outcome) by {
                assert(may_join(files, rest[0], template_name, joined));
                assert(found_in(files, rest, label, template_name, before, outcome));
            }
            i += 1;
        }
        let outcome: Found = Err(LoaderError { tried });
        assert(dirs.skip(i as int) =~= Seq::empty());
        assert(found_in(
            files,
            dirs.skip(i as int),
            label,
            template_name,
            views(tried@),
            outcome,
        ));
        outcome
    }
}

/// The view of the text of a file, or of what is said where it cannot be decoded.
pub open spec fn text_of(outcome: Result<String, String>) -> Result<Seq<char>, Seq<char>> {
    match outcome {
        Ok(text) => Ok(text@),
        Err(message) => Err(message@),
    }
}

/// What only the file system and Python can do.
pub trait Files {
    /// The current directory, if there is one.
    fn current_dir(&self) -> Option<PathBuf>;

    /// What a file holds, if it can be read.
    fn read(&self, path: &PathBuf) -> Option<SourceBytes>;

    /// The directories with the templates of the applications.
    fn app_template_dirs(&self) -> Result<Vec<PathBuf>, PyObject>;

    /// Compiles the text of a template that was found at a path.
    fn compile(&self, text: &String, path: &PathBuf, template_name: &str) -> Result<
        TemplateRef,
        PyObject,
    >;
}

/// What comes of the text of a file, or of what is said where it cannot be decoded.
pub open spec fn comes_of<F: Files>(
    files: &F,
    source: Result<Seq<char>, Seq<char>>,
    path: PathBuf,
    template_name: &str,
    outcome: Found,
) -> bool {
    match source {
        Err(message) => outcome matches Ok(Err(LoadFault::Unicode(said))) && said@ == message,
        Ok(text) => exists|held: String, compiled: Result<TemplateRef, PyObject>|
            {
                &&& held@ == text
                &&& #[trigger] call_ensures(
                    F::compile,
                    (files, &held, &path, template_name),
                    compiled,
                )
                &&& outcome == Ok::<_, LoaderError>(
                    match compiled {
                        Ok(template) => Ok(template),
                        Err(e) => Err(LoadFault::PyErr(e)),
                    },
                )
            },
    }
}

/// What looking for a template in directories gives, after some attempts: the first file within
/// its directory that can be read decides.
pub open spec fn found_in<F: Files>(
    files: &F,
    directories: Seq<PathBuf>,
    label: Seq<char>,
    template_name: &str,
    tried: Seq<(Seq<char>, Seq<char>)>,
    outcome: Found,
) -> bool
    decreases directories.len(),
{
    if directories.len() == 0 {
        outcome matches Err(e) && e@ == tried
    } else {
        let rest = directories.drop_first();
        exists|path: Option<PathBuf>|
            {
                &&& #[trigger] may_join(files, directories[0], template_name, path)
                &&& match path {
                    None => found_in(files, rest, label, template_name, tried, outcome),
                    Some(path) => exists|source: Option<SourceBytes>, shown: String|
                        {
                            &&& #[trigger] call_ensures(F::read, (files, &path), source)
                            &&& #[trigger] shown_as(path, shown)
                            &&& match source {
                                None => found_in(
                                    files,
                                    rest,
                                    label,
                                    template_name,
                                    tried.push((shown@, missing_source())),
                                    outcome,
                                ),
                                Some(source) => comes_of(
                                    files,
                                    source_text(shown@, decoding(label, source@)),
                                    path,
                                    template_name,
                                    outcome,
                                ),
                            }
                        },
                }
            }
    }
}

/// A file within a directory was read: its path is the one that the name behind the directory
/// becomes, and lies within what the directory becomes.
pub open spec fn read_within<F: Files>(
    files: &F,
    directory: PathBuf,
    template_name: &str,
    path: PathBuf,
    source: SourceBytes,
) -> bool {
    &&& may_join(files, directory, template_name, Some(path))
    &&& call_ensures(F::read, (files, &path), Some(source))
    &&& exists|dir: PathBuf|
        {
            &&& may_become(files, directory, Some(dir))
            &&& #[trigger] said_within(dir, path, true)
        }
}

/// Whatever is found in directories was read from a file within one of them.
pub proof fn law_found_templates_lie_within<F: Files>(
    files: &F,
    directories: Seq<PathBuf>,
    label: Seq<char>,
    template_name: &str,
    tried: Seq<(Seq<char>, Seq<char>)>,
    found: Result<TemplateRef, LoadFault>,
)
    requires
        found_in(files, directories, label, template_name, tried, Ok(found)),
    ensures
        exists|directory: PathBuf, path: PathBuf, source: SourceBytes|
            {
                &&& directories.contains(directory)
                &&& #[trigger] read_within(files, directory, template_name, path, source)
            },
    decreases directories.len(),
{
    let rest = directories.drop_first();
    let outcome: Found = Ok(found);
    let path = choose|path: Option<PathBuf>|
        {
            &&& #[trigger] may_join(files, directories[0], template_name, path)
            &&& match path {
                None => found_in(files, rest, label, template_name, tried, outcome),
                Some(path) => exists|source: Option<SourceBytes>, shown: String|
                    {
                        &&& #[trigger] call_ensures(F::read, (files, &path), source)
                        &&& #[trigger] shown_as(path, shown)
                        &&& match source {
                            None => found_in(
                                files,
                                rest,
                                label,
                                template_name,
                                tried.push((shown@, missing_source())),
                                outcome,
                            ),
                            Some(source) => comes_of(
                                files,
                                source_text(shown@, decoding(label, source@)),
                                path,
                                template_name,
                                outcome,
                            ),
                        }
                    },
            }
        };
    assert(directories.contains(directories[0]));
    let (later, more_tried) = match path {
        None => (true, tried),
        Some(path) => {
            let (source, shown) = choose|source: Option<SourceBytes>, shown: String|
                {
                    &&& #[trigger] call_ensures(F::read, (files, &path), source)
                    &&& #[trigger] shown_as(path, shown)
                    &&& match source {
                        None => found_in(
                            files,
                            rest,
                            label,
                            template_name,
                            tried.push((shown@, missing_source())),
                            outcome,
                        ),
                        Some(source) => comes_of(
                            files,
                            source_text(shown@, decoding(label, source@)),
                            path,
                            template_name,
                            outcome,
                        ),
                    }
                };
            if let Some(source) = source {
                law_joined_paths_lie_within(files, directories[0], template_name, path);
                assert(read_within(files, directories[0], template_name, path, source));
            }
            (source is None, tried.push((shown@, missing_source())))
        },
    };
    if later {
        law_found_templates_lie_within(files, rest, label, template_name, more_tried, found);
        let (directory, path, source) = choose|
            directory: PathBuf,
            path: PathBuf,
            source: SourceBytes,
        |
            {
                &&& rest.contains(directory)
                &&& #[trigger] read_within(files, directory, template_name, path, source)
            };
        let i = choose|i: int| 0 <= i < rest.len() && rest[i] == directory;
        assert(directories[i + 1] == directory);
    }
}

/// Compiles the text of a file, if it could be decoded.
fn compile<F: Files>(
    files: &F,
    source: Result<String, String>,
    path: &PathBuf,
    template_name: &str,
) -> (r: Found)
    ensures
        comes_of(files, text_of(source), *path, template_name, r),
{
    match source {
        Err(message) => Ok(Err(LoadFault::Unicode(message))),
        Ok(text) => {
            let compiled = files.compile(&text, path, template_name);
            assert(call_ensures(F::compile, (files, &text, path, template_name), compiled));
            match compiled {
                Ok(template) => Ok(Ok(template)),
                Err(e) => Ok(Err(LoadFault::PyErr(e))),
            }
        },
    }
}

/// Notes that a file could not be read.
pub fn note_missing(tried: &mut Vec<Attempt>, path: String)
    ensures
        views(final(tried)@) == views(old(tried)@).push((path@, missing_source())),
{
    let ghost before = tried@;
    let attempt = (path, "Source does not exist".to_owned());
    tried.push(attempt);
    assert(views(tried@) =~= views(before).push(attempt@));
}

/// Finds templates in the directories of applications.
#[derive(Debug)]
pub struct AppDirsLoader {
    encoding: Encoding,
}

impl AppDirsLoader {
    /// The label of the encoding of the files.
    pub closed spec fn label(self) -> Seq<char> {
        self.encoding@
    }

    /// A loader of files that are in an encoding.
    pub fn new(encoding: Encoding) -> (r: Self)
        ensures
            r.label() == encoding@,
    {
        AppDirsLoader { encoding }
    }

    /// The loader from the directories of applications.
    fn in_dirs(&self, dirs: Vec<PathBuf>) -> (r: FileSystemLoader)
        ensures
            r.search_path() == dirs@,
            r.label() == self.label(),
    {
        FileSystemLoader::from_pathbuf(dirs, self.encoding.duplicate())
    }

    /// Looks for a template in the directories of applications.
    pub fn get_template<F: Files>(&self, files: &F, template_name: &str) -> (r: Found)
        ensures
            found_in_apps(files, self.label(), template_name, r),
    {
        let dirs = files.app_template_dirs();
        assert(call_ensures(F::app_template_dirs, (files,), dirs));
        match dirs {
            Ok(dirs) => self.in_dirs(dirs).get_template(files, template_name),
            Err(e) => Ok(Err(LoadFault::PyErr(e))),
        }
    }
}

/// What looking for a template in the directories of applications gives.
pub open spec fn found_in_apps<F: Files>(
    files: &F,
    label: Seq<char>,
    template_name: &str,
    outcome: Found,
) -> bool {
    exists|dirs: Result<Vec<PathBuf>, PyObject>|
        {
            &&& #[trigger] call_ensures(F::app_template_dirs, (files,), dirs)
            &&& match dirs {
                Ok(dirs) => found_in(files, dirs@, label, template_name, Seq::empty(), outcome),
                Err(e) => outcome == Ok::<Result<TemplateRef, LoadFault>, LoaderError>(
                    Err(LoadFault::PyErr(e)),
                ),
            }
        }
}

/// Holds templates in memory.
#[derive(Debug)]
pub struct LocMemLoader {
    templates: Dict<String>,
}

impl LocMemLoader {
    /// The texts of the templates.
    pub closed spec fn texts(self) -> Map<Seq<char>, Seq<char>> {
        self.templates@
    }

    /// A loader of templates with given texts.
    pub fn new(templates: Dict<String>) -> (r: Self)
        ensures
            r.texts() == templates@,
    {
        LocMemLoader { templates }
    }

    /// Looks for a template among the texts; it is taken to lie at its name.
    pub fn get_template<F: Files>(&self, files: &F, template_name: &str) -> (r: Found)
        ensures
            found_in_memory(files, self.texts(), template_name, r),
    {
        match self.get_source(template_name) {
            Ok(text) => {
                let path = path_of(template_name);
                assert(stands_for(template_name, path));
                compile(files, Ok(text), &path, template_name)
            },
            Err(e) => Err(e),
        }
    }

    /// The text of a template.
    pub fn get_source(&self, template_name: &str) -> (r: Result<String, LoaderError>)
        ensures
            match r {
                Ok(text) => {
                    &&& self.texts().contains_key(template_name@)
                    &&& text@ == self.texts()[template_name@]
                },
                Err(e) => {
                    &&& !self.texts().contains_key(template_name@)
                    &&& e@ == seq![(template_name@, missing_source())]
                },
            },
    {
        match self.templates.get(template_name) {
            Some(text) => Ok(text.clone()),
            None => {
                let mut tried: Vec<Attempt> = Vec::new();
                note_missing(&mut tried, template_name.to_owned());
                assert(views(tried@) =~= seq![(template_name@, missing_source())]);
                Err(LoaderError { tried })
            },
        }
    }
}

/// What looking for a template among texts gives.
pub open spec fn found_in_memory<F: Files>(
    files: &F,
    texts: Map<Seq<char>, Seq<char>>,
    template_name: &str,
    outcome: Found,
) -> bool {
    if texts.contains_key(template_name@) {
        exists|path: PathBuf|
            {
                &&& #[trigger] stands_for(template_name, path)
                &&& comes_of(
                    files,
                    Ok(texts[template_name@]),
                    path,
                    template_name,
                    outcome,
                )
            }
    } else {
        outcome matches Err(e) && e@ == seq![(template_name@, missing_source())]
    }
}

/// What a loader finds: a template, or that there is none. A template that is there and cannot be
/// compiled is an error in its place.
pub type Found = Result<Result<TemplateRef, LoadFault>, LoaderError>;

/// Why a template that is there cannot be compiled.
#[derive(Debug, PartialEq, Eq)]
pub enum LoadFault {
    /// Python raised an error.
    PyErr(PyObject),
    /// The file cannot be decoded.
    Unicode(String),
    /// The loader is not supported.
    Unsupported,
}

/// What is kept of a search.
#[derive(Debug)]
pub enum Kept {
    Template(TemplateRef),
    Missing(LoaderError),
}

pub enum KeptView {
    Template(TemplateRef),
    Missing(Seq<(Seq<char>, Seq<char>)>),
}

impl View for Kept {
    type V = KeptView;

    open spec fn view(&self) -> KeptView {
        match *self {
            Kept::Template(template) => KeptView::Template(template),
            Kept::Missing(error) => KeptView::Missing(error@),
        }
    }
}

/// Keeps what other loaders found.
#[derive(Debug)]
pub struct CachedLoader {
    cache: Dict<Kept>,
    pub loaders: Vec<Loader>,
}

/// Finds templates.
#[derive(Debug)]
pub enum Loader {
    FileSystem(FileSystemLoader),
    AppDirs(AppDirsLoader),
    Cached(CachedLoader),
    LocMem(LocMemLoader),
    External(ExternalLoader),
}

/// Finds templates by means of Python; there is no support for that.
#[derive(Clone, Copy, Debug)]
pub struct ExternalLoader {}

/// What was found before under a name, if anything was.
pub open spec fn recalled(kept: Map<Seq<char>, KeptView>, name: Seq<char>) -> Option<KeptView> {
    if kept.contains_key(name) {
        Some(kept[name])
    } else {
        None
    }
}

/// What is kept of a search is what is found again under that name, and nothing changes under
/// other names.
pub proof fn law_kept_searches_are_recalled(
    kept: Map<Seq<char>, KeptView>,
    name: Seq<char>,
    found: KeptView,
    other: Seq<char>,
)
    ensures
        recalled(kept.insert(name, found), name) == Some(found),
        other != name ==> recalled(kept.insert(name, found), other) == recalled(kept, other),
{
}

impl CachedLoader {
    /// The other loaders.
    pub closed spec fn others(self) -> Seq<Loader> {
        self.loaders@
    }

    /// What was found before.
    pub closed spec fn kept(self) -> Map<Seq<char>, KeptView> {
        self.cache@
    }

    /// A loader that keeps what other loaders find.
    pub fn new(loaders: Vec<Loader>) -> (r: Self)
        ensures
            r.others() == loaders@,
            r.kept() == Map::<Seq<char>, KeptView>::empty(),
    {
        CachedLoader { loaders, cache: Dict::new() }
    }

    /// What was found before under a name.
    pub fn recall(&self, template_name: &str) -> (r: Option<Result<TemplateRef, LoaderError>>)
        ensures
            recalled(self.kept(), template_name@) == (match r {
                Some(Ok(template)) => Some(KeptView::Template(template)),
                Some(Err(e)) => Some(KeptView::Missing(e@)),
                None => None,
            }),
    {
        match self.cache.get(template_name) {
            Some(Kept::Template(template)) => Some(Ok(*template)),
            Some(Kept::Missing(error)) => Some(Err(error.duplicate())),
            None => None,
        }
    }

    /// Looks for a template: where it was not looked for before, the other loaders look for it in
    /// turn, and what they find is kept unless it cannot be compiled.
    pub fn get_template<F: Files>(&mut self, files: &F, template_name: &str) -> (r: Found)
        ensures
            found_or_recalled(files, *old(self), *final(self), template_name, r),
        decreases *old(self), 0int,
    {
        match self.recall(template_name) {
            Some(Ok(template)) => {
                return Ok(Ok(template));
            },
            Some(Err(error)) => {
                return Err(error);
            },
            None => {},
        }
        let mut tried: Vec<Attempt> = Vec::new();
        assert(views(tried@) =~= Seq::empty());
        assert(self.loaders@.skip(0) =~= self.loaders@);
        let found = search(&mut self.loaders, 0, files, template_name, &mut tried);
        assert(self.loaders@.skip(0) =~= self.loaders@);
        match &found {
            Ok(Ok(template)) => {
                self.cache.insert(template_name.to_owned(), Kept::Template(*template));
            },
            Ok(Err(_)) => {},
            Err(error) => {
                self.cache.insert(template_name.to_owned(), Kept::Missing(error.duplicate()));
            },
        }
        found
    }

    /// The number of names under which something was found before.
    pub fn cached_count(&self) -> (r: usize)
        ensures
            r == self.kept().dom().len(),
    {
        let keys = self.cache.keys();
        proof {
            vstd::seq_lib::seq_to_set_is_finite(views(keys@));
            views(keys@).unique_seq_to_set();
        }
        keys.len()
    }
}

/// What is kept after a search.
pub open spec fn kept_after(
    kept: Map<Seq<char>, KeptView>,
    template_name: Seq<char>,
    outcome: Found,
) -> Map<Seq<char>, KeptView> {
    match outcome {
        Ok(Ok(template)) => kept.insert(template_name, KeptView::Template(template)),
        Ok(Err(_)) => kept,
        Err(error) => kept.insert(template_name, KeptView::Missing(error@)),
    }
}

/// Every outcome is one.
pub open spec fn is_outcome(outcome: Found) -> bool {
    true
}

/// What looking for a template by means of a loader gives, and what becomes of the loader.
pub open spec fn loads<F: Files>(
    files: &F,
    before: Loader,
    after: Loader,
    template_name: &str,
    outcome: Found,
) -> bool
    decreases before, 1int,
{
    match before {
        Loader::FileSystem(loader) => {
            &&& after == before
            &&& found_in(
                files,
                loader.search_path(),
                loader.label(),
                template_name,
                Seq::empty(),
                outcome,
            )
        },
        Loader::AppDirs(loader) => {
            &&& after == before
            &&& found_in_apps(files, loader.label(), template_name, outcome)
        },
        Loader::Cached(loader) => after matches Loader::Cached(next) && found_or_recalled(
            files,
            loader,
            next,
            template_name,
            outcome,
        ),
        Loader::LocMem(loader) => {
            &&& after == before
            &&& found_in_memory(files, loader.texts(), template_name, outcome)
        },
        Loader::External(_) => {
            &&& after == before
            &&& outcome == Ok::<Result<TemplateRef, LoadFault>, LoaderError>(
                Err(LoadFault::Unsupported),
            )
        },
    }
}

/// What looking for a template gives by means of a loader that keeps what others found.
pub open spec fn found_or_recalled<F: Files>(
    files: &F,
    before: CachedLoader,
    after: CachedLoader,
    template_name: &str,
    outcome: Found,
) -> bool
    decreases before, 0int,
{
    match recalled(before.kept(), template_name@) {
        Some(KeptView::Template(template)) => {
            &&& after == before
            &&& outcome == Ok::<_, LoaderError>(Ok::<_, LoadFault>(template))
        },
        Some(KeptView::Missing(tried)) => {
            &&& after == before
            &&& outcome matches Err(e) && e@ == tried
        },
        None => {
            &&& searched(
                files,
                before.others(),
                after.others(),
                template_name,
                Seq::empty(),
                outcome,
            )
            &&& after.kept() == kept_after(before.kept(), template_name@, outcome)
        },
    }
}

/// What looking for a template by means of loaders in turn gives, after some attempts, and what
/// becomes of the loaders: the first one that finds something decides.
pub open spec fn searched<F: Files>(
    files: &F,
    before: Seq<Loader>,
    after: Seq<Loader>,
    template_name: &str,
    tried: Seq<(Seq<char>, Seq<char>)>,
    outcome: Found,
) -> bool
    decreases before, 0int,
{
    &&& after.len() == before.len()
    &&& if before.len() == 0 {
        outcome matches Err(e) && e@ == tried
    } else {
        exists|found: Found|
            {
                &&& #[trigger] is_outcome(found)
                &&& loads(files, before[0], after[0], template_name, found)
                &&& match found {
                    Ok(_) => outcome == found && after.drop_first() == before.drop_first(),
                    Err(error) => searched(
                        files,
                        before.drop_first(),
                        after.drop_first(),
                        template_name,
                        tried + error@,
                        outcome,
                    ),
                }
            }
    }
}

/// Looks for a template by means of loaders in turn, from a position on.
fn search<F: Files>(
    loaders: &mut Vec<Loader>,
    i: usize,
    files: &F,
    template_name: &str,
    tried: &mut Vec<Attempt>,
) -> (r: Found)
    requires
        i <= old(loaders)@.len(),
    ensures
        final(loaders)@.len() == old(loaders)@.len(),
        final(loaders)@.take(i as int) == old(loaders)@.take(i as int),
        searched(
            files,
            old(loaders)@.skip(i as int),
            final(loaders)@.skip(i as int),
            template_name,
            views(old(tried)@),
            r,
        ),
    decreases old(loaders)@.skip(i as int), 0int,
{
    let ghost before = loaders@;
    if i == loaders.len() {
        let mut all: Vec<Attempt> = Vec::new();
        append_attempts(&mut all, tried);
        assert(views(all@) =~= views(tried@));
        return Err(LoaderError { tried: all });
    }
    assert(before.skip(i as int)[0] == before[i as int]);
    let found = loaders[i].get_template(files, template_name);
    assert(is_outcome(found));
    let ghost middle = loaders@;
    assert(middle =~= before.update(i as int, middle[i as int]));
    assert(before.skip(i as int).drop_first() =~= middle.skip(i + 1));
    assert(middle.skip(i as int).drop_first() =~= middle.skip(i + 1));
    assert(middle.take(i as int) =~= before.take(i as int));
    match found {
        Ok(outcome) => Ok(outcome),
        Err(error) => {
            append_attempts(tried, &error.tried);
            let r = search(loaders, i + 1, files, template_name, tried);
            proof {
                let after = loaders@;
                assert(after.skip(i as int).drop_first() =~= after.skip(i + 1));
                assert(after.take(i + 1)[i as int] == middle.take(i + 1)[i as int]);
                assert(after.skip(i as int)[0] == middle[i as int]);
                assert(after.take(i as int) =~= after.take(i + 1).take(i as int));
                assert(middle.take(i as int) =~= middle.take(i + 1).take(i as int));
            }
            r
        },
    }
}

/// Looking for a template once more by means of a loader that keeps what others found gives what
/// it gave before, unless the template could not be compiled.
pub proof fn law_searches_repeat<F: Files, G: Files>(
    files: &F,
    later_files: &G,
    before: CachedLoader,
    between: CachedLoader,
    after: CachedLoader,
    template_name: &str,
    first: Found,
    second: Found,
)
    requires
        found_or_recalled(files, before, between, template_name, first),
        found_or_recalled(later_files, between, after, template_name, second),
        !(first matches Ok(Err(_))),
    ensures
        after == between,
        match first {
            Ok(outcome) => second == first,
            Err(error) => second matches Err(again) && again@ == error@,
        },
{
    match first {
        Ok(Ok(template)) => {
            law_kept_searches_are_recalled(
                before.kept(),
                template_name@,
                KeptView::Template(template),
                template_name@,
            );
        },
        Ok(Err(_)) => {},
        Err(error) => {
            law_kept_searches_are_recalled(
                before.kept(),
                template_name@,
                KeptView::Missing(error@),
                template_name@,
            );
        },
    }
}

impl Loader {
    /// Looks for a template.
    pub fn get_template<F: Files>(&mut self, files: &F, template_name: &str) -> (r: Found)
        ensures
            loads(files, *old(self), *final(self), template_name, r),
        decreases *old(self), 1int,
    {
        match self {
            Loader::FileSystem(loader) => loader.get_template(files, template_name),
            Loader::AppDirs(loader) => loader.get_template(files, template_name),
            Loader::Cached(loader) => loader.get_template(files, template_name),
            Loader::LocMem(loader) => loader.get_template(files, template_name),
            Loader::External(_) => Ok(Err(LoadFault::Unsupported)),
        }
    }
}

} // verus!
