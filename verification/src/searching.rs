//! Where templates are found.
use std::path::PathBuf;
use vstd::prelude::*;
use crate::loaders::{
    comes_of, decoding, existing, found_in, found_in_apps, found_in_memory, is_outcome, kept_after,
    lies_behind, loads, may_hold_templates, may_join, missing_source, recalled, searched, shown_as,
    source_text, stands_for, AppPath, Files, Found, KeptView, LoadFault, Loader, LoaderError,
    SourceBytes,
};
use crate::render::context::TemplateRef;
use crate::types::PyObject;

verus! {

/// A directory holds nothing under a name that lies within it and can be read.
pub open spec fn lacks<F: Files>(files: &F, directory: PathBuf, template_name: &str) -> bool {
    forall|path: PathBuf, source: Option<SourceBytes>|
        #![trigger may_join(files, directory, template_name, Some(path)), call_ensures(
            F::read,
            (files, &path),
            source,
        )]
        may_join(files, directory, template_name, Some(path)) && call_ensures(
            F::read,
            (files, &path),
            source,
        ) ==> source is None
}

/// A directory holds a file under a name.
pub open spec fn holds_file<F: Files>(
    files: &F,
    directory: PathBuf,
    template_name: &str,
    path: PathBuf,
    source: SourceBytes,
) -> bool {
    &&& forall|p: Option<PathBuf>| #[trigger]
        may_join(files, directory, template_name, p) ==> p == Some(path)
    &&& forall|s: Option<SourceBytes>| #[trigger]
        call_ensures(F::read, (files, &path), s) ==> s == Some(source)
}

/// A template comes from the first directory that holds it, and is what the bytes of its file say
/// in the encoding of the loader.
pub proof fn law_first_directory_decides<F: Files>(
    files: &F,
    directories: Seq<PathBuf>,
    label: Seq<char>,
    template_name: &str,
    tried: Seq<(Seq<char>, Seq<char>)>,
    outcome: Found,
    k: int,
    path: PathBuf,
    source: SourceBytes,
)
    requires
        found_in(files, directories, label, template_name, tried, outcome),
        0 <= k < directories.len(),
        forall|i: int| 0 <= i < k ==> lacks(files, #[trigger] directories[i], template_name),
        holds_file(files, directories[k], template_name, path, source),
    ensures
        exists|shown: String|
            {
                &&& #[trigger] shown_as(path, shown)
                &&& comes_of(
                    files,
                    source_text(shown@, decoding(label, source@)),
                    path,
                    template_name,
                    outcome,
                )
            },
    decreases directories.len(),
{
    let rest = directories.drop_first();
    let joined = choose|joined: Option<PathBuf>|
        {
            &&& #[trigger] may_join(files, directories[0], template_name, joined)
            &&& match joined {
                None => found_in(files, rest, label, template_name, tried, outcome),
                Some(p) => exists|read: Option<SourceBytes>, shown: String|
                    {
                        &&& #[trigger] call_ensures(F::read, (files, &p), read)
                        &&& #[trigger] shown_as(p, shown)
                        &&& match read {
                            None => found_in(
                                files,
                                rest,
                                label,
                                template_name,
                                tried.push((shown@, missing_source())),
                                outcome,
                            ),
                            Some(s) => comes_of(
                                files,
                                source_text(shown@, decoding(label, s@)),
                                p,
                                template_name,
                                outcome,
                            ),
                        }
                    },
            }
        };
    if k == 0 {
        assert(joined == Some(path));
    } else {
        assert(lacks(files, directories[0], template_name));
        assert(rest[k - 1] == directories[k]);
        assert forall|i: int| 0 <= i < k - 1 implies lacks(
            files,
            #[trigger] rest[i],
            template_name,
        ) by {
            assert(rest[i] == directories[i + 1]);
        }
        match joined {
            None => {
                law_first_directory_decides(
                    files,
                    rest,
                    label,
                    template_name,
                    tried,
                    outcome,
                    k - 1,
                    path,
                    source,
                );
            },
            Some(p) => {
                let (read, shown) = choose|read: Option<SourceBytes>, shown: String|
                    {
                        &&& #[trigger] call_ensures(F::read, (files, &p), read)
                        &&& #[trigger] shown_as(p, shown)
                        &&& match read {
                            None => found_in(
                                files,
                                rest,
                                label,
                                template_name,
                                tried.push((shown@, missing_source())),
                                outcome,
                            ),
                            Some(s) => comes_of(
                                files,
                                source_text(shown@, decoding(label, s@)),
                                p,
                                template_name,
                                outcome,
                            ),
                        }
                    };
                assert(may_join(files, directories[0], template_name, Some(p)));
                assert(read is None);
                law_first_directory_decides(
                    files,
                    rest,
                    label,
                    template_name,
                    tried.push((shown@, missing_source())),
                    outcome,
                    k - 1,
                    path,
                    source,
                );
            },
        }
    }
}

/// A template that no directory holds is not found; what was tried is told, after what was tried
/// before.
pub proof fn law_missing_templates_are_not_found<F: Files>(
    files: &F,
    directories: Seq<PathBuf>,
    label: Seq<char>,
    template_name: &str,
    tried: Seq<(Seq<char>, Seq<char>)>,
    outcome: Found,
)
    requires
        found_in(files, directories, label, template_name, tried, outcome),
        forall|i: int|
            0 <= i < directories.len() ==> lacks(files, #[trigger] directories[i], template_name),
    ensures
        outcome matches Err(e) && {
            &&& tried.len() <= e@.len() <= tried.len() + directories.len()
            &&& e@.take(tried.len() as int) == tried
            &&& forall|i: int|
                tried.len() <= i < e@.len() ==> (#[trigger] e@[i]).1 == missing_source()
        },
    decreases directories.len(),
{
    if directories.len() == 0 {
        assert(tried.take(tried.len() as int) =~= tried);
    } else {
        let rest = directories.drop_first();
        assert(lacks(files, directories[0], template_name));
        assert forall|i: int| 0 <= i < rest.len() implies lacks(
            files,
            #[trigger] rest[i],
            template_name,
        ) by {
            assert(rest[i] == directories[i + 1]);
        }
        let joined = choose|joined: Option<PathBuf>|
            {
                &&& #[trigger] may_join(files, directories[0], template_name, joined)
                &&& match joined {
                    None => found_in(files, rest, label, template_name, tried, outcome),
                    Some(p) => exists|read: Option<SourceBytes>, shown: String|
                        {
                            &&& #[trigger] call_ensures(F::read, (files, &p), read)
                            &&& #[trigger] shown_as(p, shown)
                            &&& match read {
                                None => found_in(
                                    files,
                                    rest,
                                    label,
                                    template_name,
                                    tried.push((shown@, missing_source())),
                                    outcome,
                                ),
                                Some(s) => comes_of(
                                    files,
                                    source_text(shown@, decoding(label, s@)),
                                    p,
                                    template_name,
                                    outcome,
                                ),
                            }
                        },
                }
            };
        match joined {
            None => {
                law_missing_templates_are_not_found(
                    files,
                    rest,
                    label,
                    template_name,
                    tried,
                    outcome,
                );
            },
            Some(p) => {
                let (read, shown) = choose|read: Option<SourceBytes>, shown: String|
                    {
                        &&& #[trigger] call_ensures(F::read, (files, &p), read)
                        &&& #[trigger] shown_as(p, shown)
                        &&& match read {
                            None => found_in(
                                files,
                                rest,
                                label,
                                template_name,
                                tried.push((shown@, missing_source())),
                                outcome,
                            ),
                            Some(s) => comes_of(
                                files,
                                source_text(shown@, decoding(label, s@)),
                                p,
                                template_name,
                                outcome,
                            ),
                        }
                    };
                assert(may_join(files, directories[0], template_name, Some(p)));
                assert(read is None);
                let next = tried.push((shown@, missing_source()));
                law_missing_templates_are_not_found(
                    files,
                    rest,
                    label,
                    template_name,
                    next,
                    outcome,
                );
                let e = outcome->Err_0;
                assert(e@.take(tried.len() as int) =~= e@.take(next.len() as int).take(
                    tried.len() as int,
                ));
                assert(next.take(tried.len() as int) =~= tried);
                assert(e@.take(next.len() as int)[tried.len() as int] == next[tried.len() as int]);
            },
        }
    }
}

/// The directories of applications are those that exist, in order.
pub proof fn law_existing_directories_come_in_order(
    before: Seq<(Option<PathBuf>, bool)>,
    directory: Option<PathBuf>,
    there: bool,
)
    ensures
        existing(before.push((directory, there))) == (if there && directory is Some {
            existing(before).push(directory->0)
        } else {
            existing(before)
        }),
        existing(Seq::empty()).len() == 0,
{
    assert(before.push((directory, there)).drop_last() =~= before);
}

/// A file whose bytes are not all text in the encoding is told of; of any other one the text is
/// taken.
pub proof fn law_malformed_files_are_told_of(
    path: Seq<char>,
    text: Seq<char>,
    used: Seq<char>,
    malformed: bool,
)
    ensures
        source_text(path, (text, used, malformed)) is Err <==> malformed,
        !malformed ==> source_text(path, (text, used, malformed)) == Ok::<_, Seq<char>>(text),
        malformed ==> source_text(path, (text, used, malformed)) == Err::<Seq<char>, _>(
            "Could not open "@ + path + " with "@ + used + " encoding."@,
        ),
{
}

/// What loaders tried, one after the other.
pub open spec fn all_tried(errors: Seq<LoaderError>) -> Seq<(Seq<char>, Seq<char>)>
    decreases errors.len(),
{
    if errors.len() == 0 {
        Seq::empty()
    } else {
        errors[0]@ + all_tried(errors.drop_first())
    }
}

/// The first loader that finds a template decides, and those after it are not asked. Where none
/// finds it, what each of them tried is told, in order.
pub proof fn law_first_loader_decides<F: Files>(
    files: &F,
    before: Seq<Loader>,
    after: Seq<Loader>,
    template_name: &str,
    tried: Seq<(Seq<char>, Seq<char>)>,
    outcome: Found,
) -> (errors: Seq<LoaderError>)
    requires
        searched(files, before, after, template_name, tried, outcome),
    ensures
        after.len() == before.len(),
        errors.len() <= before.len(),
        forall|i: int|
            0 <= i < errors.len() ==> loads(
                files,
                before[i],
                after[i],
                template_name,
                Err(#[trigger] errors[i]),
            ),
        match outcome {
            Ok(found) => {
                let k = errors.len() as int;
                &&& k < before.len()
                &&& loads(files, before[k], after[k], template_name, Ok(found))
                &&& forall|i: int| k < i < before.len() ==> #[trigger] after[i] == before[i]
            },
            Err(e) => errors.len() == before.len() && e@ == tried + all_tried(errors),
        },
    decreases before.len(),
{
    if before.len() == 0 {
        assert(tried + all_tried(Seq::empty()) =~= tried);
        Seq::empty()
    } else {
        let rest = before.drop_first();
        let left = after.drop_first();
        let found = choose|found: Found|
            {
                &&& #[trigger] is_outcome(found)
                &&& loads(files, before[0], after[0], template_name, found)
                &&& match found {
                    Ok(_) => outcome == found && left == rest,
                    Err(error) => searched(
                        files,
                        rest,
                        left,
                        template_name,
                        tried + error@,
                        outcome,
                    ),
                }
            };
        match found {
            Ok(_) => {
                assert forall|i: int| 0 < i < before.len() implies #[trigger] after[i]
                    == before[i] by {
                    assert(left[i - 1] == rest[i - 1]);
                }
                Seq::empty()
            },
            Err(error) => {
                let others = law_first_loader_decides(
                    files,
                    rest,
                    left,
                    template_name,
                    tried + error@,
                    outcome,
                );
                let errors = seq![error] + others;
                assert(errors.drop_first() =~= others);
                assert(tried + error@ + all_tried(others) =~= tried + all_tried(errors));
                assert forall|i: int| 0 <= i < errors.len() implies loads(
                    files,
                    before[i],
                    after[i],
                    template_name,
                    Err(#[trigger] errors[i]),
                ) by {
                    if i > 0 {
                        assert(errors[i] == others[i - 1]);
                        assert(before[i] == rest[i - 1] && after[i] == left[i - 1]);
                    }
                }
                if outcome is Ok {
                    let k = errors.len() as int;
                    assert(before[k] == rest[k - 1] && after[k] == left[k - 1]);
                    assert forall|i: int| k < i < before.len() implies #[trigger] after[i]
                        == before[i] by {
                        assert(left[i - 1] == rest[i - 1]);
                    }
                }
                errors
            },
        }
    }
}

/// What is found is kept, and so is that nothing was found; only what could not be compiled is
/// looked for again.
pub proof fn law_searches_are_kept(
    kept: Map<Seq<char>, KeptView>,
    name: Seq<char>,
    other: Seq<char>,
    outcome: Found,
)
    ensures
        match outcome {
            Ok(Ok(template)) => recalled(kept_after(kept, name, outcome), name) == Some(
                KeptView::Template(template),
            ),
            Ok(Err(_)) => recalled(kept_after(kept, name, outcome), name) == recalled(kept, name),
            Err(error) => recalled(kept_after(kept, name, outcome), name) == Some(
                KeptView::Missing(error@),
            ),
        },
        other != name ==> recalled(kept_after(kept, name, outcome), other) == recalled(
            kept,
            other,
        ),
{
}

/// The text of a template is handed to Python just as it is, and a text that could not be decoded
/// is not handed over.
pub proof fn law_texts_are_compiled<F: Files>(
    files: &F,
    source: Result<Seq<char>, Seq<char>>,
    path: PathBuf,
    template_name: &str,
    outcome: Found,
)
    requires
        comes_of(files, source, path, template_name, outcome),
    ensures
        outcome is Ok,
        source is Err ==> (outcome matches Ok(Err(LoadFault::Unicode(said))) && said@
            == source->Err_0),
        source is Ok ==> exists|held: String, compiled: Result<TemplateRef, PyObject>|
            {
                &&& #[trigger] call_ensures(
                    F::compile,
                    (files, &held, &path, template_name),
                    compiled,
                )
                &&& held@ == source->Ok_0
                &&& match compiled {
                    Ok(template) => outcome matches Ok(Ok(found)) && found == template,
                    Err(e) => outcome matches Ok(Err(LoadFault::PyErr(raised))) && raised == e,
                }
            },
{
}

/// A template that is held in memory is what its text says, and any other one is not found under
/// its name.
pub proof fn law_templates_in_memory<F: Files>(
    files: &F,
    texts: Map<Seq<char>, Seq<char>>,
    template_name: &str,
    outcome: Found,
)
    requires
        found_in_memory(files, texts, template_name, outcome),
    ensures
        outcome is Ok <==> texts.contains_key(template_name@),
        outcome is Ok ==> exists|held: String, path: PathBuf, compiled: Result<TemplateRef, PyObject>|
            {
                &&& #[trigger] call_ensures(
                    F::compile,
                    (files, &held, &path, template_name),
                    compiled,
                )
                &&& held@ == texts[template_name@]
                &&& outcome->Ok_0 is Ok <==> compiled is Ok
                &&& outcome->Ok_0 is Ok ==> outcome->Ok_0->Ok_0 == compiled->Ok_0
            },
        outcome matches Err(e) ==> e@.len() == 1 && e@[0].0 == template_name@,
{
    if texts.contains_key(template_name@) {
        let path = choose|path: PathBuf|
            {
                &&& #[trigger] stands_for(template_name, path)
                &&& comes_of(files, Ok(texts[template_name@]), path, template_name, outcome)
            };
        law_texts_are_compiled(files, Ok(texts[template_name@]), path, template_name, outcome);
    }
}

/// The templates of applications are looked for in the directories that Python tells of; what it
/// raises is told.
pub proof fn law_templates_of_applications<F: Files>(
    files: &F,
    label: Seq<char>,
    template_name: &str,
    outcome: Found,
    dirs: Result<Vec<PathBuf>, PyObject>,
)
    requires
        found_in_apps(files, label, template_name, outcome),
        forall|d: Result<Vec<PathBuf>, PyObject>| #[trigger]
            call_ensures(F::app_template_dirs, (files,), d) ==> d == dirs,
    ensures
        dirs is Ok ==> found_in(
            files,
            dirs->Ok_0@,
            label,
            template_name,
            Seq::empty(),
            outcome,
        ),
        dirs is Err ==> (outcome matches Ok(Err(LoadFault::PyErr(e))) && e == dirs->Err_0),
{
}

/// An application has a directory for templates just if it has a path, and the directory lies behind
/// this path.
pub proof fn law_applications_have_directories(
    app: AppPath,
    dirname: &str,
    outcome: Result<Option<PathBuf>, PyObject>,
)
    requires
        may_hold_templates(app, dirname, outcome),
    ensures
        outcome is Ok && outcome->Ok_0 is Some ==> app.is_truthy == Ok::<_, PyObject>(true)
            && app.path is Ok && lies_behind(app.path->Ok_0, dirname, outcome->Ok_0->0),
        outcome is Ok && outcome->Ok_0 is None <==> app.is_truthy == Ok::<_, PyObject>(false),
        outcome matches Err(e) ==> app.is_truthy == Err::<bool, _>(e) || app.path == Err::<
            PathBuf,
            _,
        >(e),
{
}

} // verus!
