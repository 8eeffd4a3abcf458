use vstd::prelude::*;

use crate::config::{role_views, Role, RoleView};
use crate::generator::classes::{
    classes_per_role, find_group, generate_classes_per_role, group_index, group_keys, imports_views,
    lemma_group_index, lemma_group_index_keys, pair_views,
};
use crate::generator::floats::{printed_custom_type, printed_custom_types, printed_endpoint, printed_endpoints, FloatTexts};
use crate::generator::client::{callback_client_text, contains_text, foreign_client_text, generate_client, same_text};
use crate::generator::typescript::{class_text, generate_class, string_views};
use crate::input_reader::{collect_string, ends_with, str_chars, InputReader, InputReaderError, ReaderState};
use crate::lexer::reader::{lex, TokenReader, TokenReaderView};
use crate::parser::custom_type::{CustomType, CustomTypeView};
use crate::parser::endpoint::{Endpoint, EndpointView};
use crate::parser::error::ParseErrorView;
use crate::parser::parse::{custom_type_views, endpoint_views, parse, spec_parse};
use crate::position::{CodePosition, Range};
use crate::validator::{spec_validate, validate, validation_error_views, ValidationErrorView};

verus! {

/// A file of a source directory. `float_texts` says how its float literals are
/// printed: pairs of a literal as written and the text to print for it (the
/// printed form of the number it stands for); a literal without an entry is
/// printed as written.
pub struct SourceFile {
    pub name: String,
    pub content: Vec<u8>,
    pub float_texts: Vec<(String, String)>,
}

/// A directory of sources, with its files and subdirectories, as read from the disk.
pub struct SourceDirectory {
    pub name: String,
    pub files: Vec<SourceFile>,
    pub directories: Vec<SourceDirectory>,
}

/// A file to write: `directory` is relative to the output directory.
#[derive(Debug)]
pub struct GeneratedFile {
    pub directory: String,
    pub file_name: String,
    pub content: String,
}

/// A problem met while generating code for a directory of sources.
#[derive(Debug)]
pub enum GenerationError {
    /// A source could not be read; `source` is its path relative to the source directory.
    Unreadable { source: String, error: InputReaderError },
    /// A syntax or logical error at a place in a source.
    Diagnostic { source: String, range: Range, message: String },
    /// Classes were generated for a role that is not configured.
    UnknownRole { role: String },
}

pub struct GeneratedFileView {
    pub directory: Seq<char>,
    pub file_name: Seq<char>,
    pub content: Seq<char>,
}

impl View for GeneratedFile {
    type V = GeneratedFileView;

    open spec fn view(&self) -> GeneratedFileView {
        GeneratedFileView {
            directory: self.directory@,
            file_name: self.file_name@,
            content: self.content@,
        }
    }
}

pub enum GenerationErrorView {
    Unreadable { source: Seq<char> },
    Diagnostic { source: Seq<char>, range: Range, message: Seq<char> },
    UnknownRole { role: Seq<char> },
}

impl View for GenerationError {
    type V = GenerationErrorView;

    open spec fn view(&self) -> GenerationErrorView {
        match self {
            GenerationError::Unreadable { source, .. } => GenerationErrorView::Unreadable {
                source: source@,
            },
            GenerationError::Diagnostic { source, range, message } => GenerationErrorView::Diagnostic {
                source: source@,
                range: *range,
                message: message@,
            },
            GenerationError::UnknownRole { role } => GenerationErrorView::UnknownRole { role: role@ },
        }
    }
}

/// Every error of a source that could not be read holds a UTF-8 error: a line
/// that is not valid UTF-8 is the only thing that stops reading.
pub open spec fn unreadable_from_utf8(errors: Seq<GenerationError>) -> bool {
    forall|i: int|
        0 <= i < errors.len() ==> (#[trigger] errors[i] matches GenerationError::Unreadable {
            error,
            ..
        } ==> error is Utf8)
}

pub open spec fn file_views(files: Seq<GeneratedFile>) -> Seq<GeneratedFileView> {
    files.map_values(|f: GeneratedFile| f@)
}

pub open spec fn error_views(errors: Seq<GenerationError>) -> Seq<GenerationErrorView> {
    errors.map_values(|e: GenerationError| e@)
}

/// The class names generated per role.
pub type ClassNames = Seq<(Seq<char>, Seq<Seq<char>>)>;

pub open spec fn erpc_suffix() -> Seq<char> {
    seq!['.', 'e', 'r', 'p', 'c']
}

/// The name of a source file without its `.erpc` suffix; files without it are
/// no sources.
pub open spec fn source_stem(name: Seq<char>) -> Option<Seq<char>> {
    if erpc_suffix().is_suffix_of(name) {
        Some(name.take(name.len() - 5))
    } else {
        None
    }
}

/// A reader at the start of `bytes`.
pub open spec fn fresh_reader(bytes: Seq<u8>) -> ReaderState {
    ReaderState {
        input: bytes,
        offset: 0,
        buffer: Seq::empty(),
        done: false,
        position: CodePosition { line: 0, character: 0 },
    }
}

/// What reading a source gives.
pub enum SourceReading {
    Unreadable,
    Invalid(ParseErrorView),
    Parsed(Seq<EndpointView>, Seq<CustomTypeView>),
}

/// Lexing and parsing a source.
pub open spec fn read_source(bytes: Seq<u8>) -> SourceReading {
    match lex(fresh_reader(bytes)) {
        None => SourceReading::Unreadable,
        Some(tokens) => match spec_parse(
            TokenReaderView {
                tokens,
                last_start: CodePosition { line: 0, character: 0 },
                last_end: CodePosition { line: 0, character: 0 },
            },
        ).1 {
            Err(e) => SourceReading::Invalid(e),
            Ok((endpoints, custom_types)) => SourceReading::Parsed(endpoints, custom_types),
        },
    }
}

/// The entry for `key`, or `default`.
pub open spec fn entry_or<T>(entries: Seq<(Seq<char>, T)>, key: Seq<char>, default: T) -> T {
    match group_index(entries, key) {
        Some(k) => entries[k].1,
        None => default,
    }
}

/// The entries with the one for `key` set to `value`.
pub open spec fn insert_entry<T>(entries: Seq<(Seq<char>, T)>, key: Seq<char>, value: T) -> Seq<
    (Seq<char>, T),
> {
    match group_index(entries, key) {
        Some(k) => entries.update(k, (key, value)),
        None => entries.push((key, value)),
    }
}

/// The entries without the one for `key`.
pub open spec fn remove_entry<T>(entries: Seq<(Seq<char>, T)>, key: Seq<char>) -> Seq<(Seq<char>, T)> {
    match group_index(entries, key) {
        Some(k) => entries.remove(k),
        None => entries,
    }
}

/// `name` added to the class names of `role`.
pub open spec fn add_class_name(classes: ClassNames, role: Seq<char>, name: Seq<char>) -> ClassNames {
    match group_index(classes, role) {
        Some(k) => classes.update(k, (classes[k].0, classes[k].1.push(name))),
        None => classes.push((role, seq![name])),
    }
}

/// `name` added to the class names of each role that a class was generated for.
pub open spec fn add_class_names(classes: ClassNames, generated: Seq<(Seq<char>, Seq<char>)>, name: Seq<char>) -> ClassNames
    decreases generated.len(),
{
    if generated.len() == 0 {
        classes
    } else {
        add_class_name(add_class_names(classes, generated.drop_last(), name), generated.last().0, name)
    }
}

/// The file of a generated class: `<role>/<relative path>/<name>.ts`.
pub open spec fn class_file(relative_path: Seq<char>, name: Seq<char>, class: (Seq<char>, Seq<char>)) -> GeneratedFileView {
    GeneratedFileView {
        directory: class.0 + "/"@ + relative_path,
        file_name: name + ".ts"@,
        content: class.1,
    }
}

pub open spec fn diagnostic_of(source: Seq<char>, e: ValidationErrorView) -> GenerationErrorView {
    GenerationErrorView::Diagnostic { source, range: e.range, message: e.message }
}

/// The state of the processing of one directory level: the classes of the
/// subdirectories per subdirectory name (until a source of that name imports
/// them), the class names generated on this level per role, the files to write
/// and the errors.
pub struct LevelState {
    pub subclasses: Seq<(Seq<char>, ClassNames)>,
    pub classes: ClassNames,
    pub files: Seq<GeneratedFileView>,
    pub errors: Seq<GenerationErrorView>,
}

pub open spec fn empty_level() -> LevelState {
    LevelState {
        subclasses: Seq::empty(),
        classes: Seq::empty(),
        files: Seq::empty(),
        errors: Seq::empty(),
    }
}

/// Processing one file of a directory at `relative_path`: files that are no
/// sources are skipped; a source that can't be read, doesn't parse or has
/// logical errors gives errors; else a class per role is generated, which
/// imports the classes of the subdirectory of the same name.
pub open spec fn process_file(
    state: LevelState,
    file_name: Seq<char>,
    bytes: Seq<u8>,
    floats: FloatTexts,
    relative_path: Seq<char>,
    selected_role: Seq<char>,
    roles: Seq<RoleView>,
) -> LevelState {
    match source_stem(file_name) {
        None => state,
        Some(stem) => {
            let source = relative_path + file_name;
            match read_source(bytes) {
                SourceReading::Unreadable => LevelState {
                    errors: state.errors.push(GenerationErrorView::Unreadable { source }),
                    ..state
                },
                SourceReading::Invalid(e) => LevelState {
                    errors: state.errors.push(
                        GenerationErrorView::Diagnostic {
                            source,
                            range: Range { start: e.start, end: e.end },
                            message: e.message,
                        },
                    ),
                    ..state
                },
                SourceReading::Parsed(endpoints, custom_types) => {
                    let problems = spec_validate(endpoints, custom_types, roles);
                    if problems.len() > 0 {
                        LevelState {
                            errors: state.errors + problems.map_values(
                                |p: ValidationErrorView| diagnostic_of(source, p),
                            ),
                            ..state
                        }
                    } else {
                        let generated = classes_per_role(
                            stem,
                            relative_path,
                            endpoints.map_values(|e: EndpointView| printed_endpoint(floats, e)),
                            selected_role,
                            custom_types.map_values(|c: CustomTypeView| printed_custom_type(floats, c)),
                            entry_or(state.subclasses, stem, Seq::empty()),
                        );
                        add_generated(
                            LevelState { subclasses: remove_entry(state.subclasses, stem), ..state },
                            relative_path,
                            stem,
                            generated,
                        )
                    }
                },
            }
        },
    }
}

/// The files of a directory, processed in order.
pub open spec fn files_from(
    files: Seq<SourceFile>,
    state: LevelState,
    relative_path: Seq<char>,
    selected_role: Seq<char>,
    roles: Seq<RoleView>,
) -> LevelState
    decreases files.len(),
{
    if files.len() == 0 {
        state
    } else {
        process_file(
            files_from(files.drop_last(), state, relative_path, selected_role, roles),
            files.last().name@,
            files.last().content@,
            pair_views(files.last().float_texts@),
            relative_path,
            selected_role,
            roles,
        )
    }
}

/// The wrapper classes of a subdirectory `name` that no source of the level
/// imports: one per role that the subdirectory has classes for, without
/// endpoints of its own, importing the subdirectory's classes of that role.
pub open spec fn wrapper_classes(
    name: Seq<char>,
    relative_path: Seq<char>,
    selected_role: Seq<char>,
    per_role: ClassNames,
) -> Seq<(Seq<char>, Seq<char>)> {
    per_role.map_values(
        |g: (Seq<char>, Seq<Seq<char>>)|
            (g.0, class_text(name, relative_path, Seq::empty(), selected_role != g.0, g.1, Seq::empty())),
    )
}

/// The classes of one subdirectory, `generated` (per role), added to the level:
/// their files and their names.
pub open spec fn add_generated(
    state: LevelState,
    relative_path: Seq<char>,
    name: Seq<char>,
    generated: Seq<(Seq<char>, Seq<char>)>,
) -> LevelState {
    LevelState {
        classes: add_class_names(state.classes, generated, name),
        files: state.files + generated.map_values(
            |c: (Seq<char>, Seq<char>)| class_file(relative_path, name, c),
        ),
        ..state
    }
}

/// The wrappers of the subdirectories in `entries`, added in order.
pub open spec fn wrappers_from(
    entries: Seq<(Seq<char>, ClassNames)>,
    state: LevelState,
    relative_path: Seq<char>,
    selected_role: Seq<char>,
) -> LevelState
    decreases entries.len(),
{
    if entries.len() == 0 {
        state
    } else {
        let (name, per_role) = entries.last();
        add_generated(
            wrappers_from(entries.drop_last(), state, relative_path, selected_role),
            relative_path,
            name,
            wrapper_classes(name, relative_path, selected_role, per_role),
        )
    }
}

/// The processing of a directory at `relative_path`: first its subdirectories,
/// then its files, then a wrapper for each subdirectory that no source of the
/// same name imports.
pub open spec fn directory_outcome(
    dir: SourceDirectory,
    relative_path: Seq<char>,
    selected_role: Seq<char>,
    roles: Seq<RoleView>,
) -> LevelState
    decreases dir, 1int, 0int,
{
    let after_files = files_from(
        dir.files@,
        subdirectories_upto(dir, dir.directories@.len(), relative_path, selected_role, roles),
        relative_path,
        selected_role,
        roles,
    );
    wrappers_from(
        after_files.subclasses,
        LevelState { subclasses: Seq::empty(), ..after_files },
        relative_path,
        selected_role,
    )
}

/// The state after the first `k` subdirectories of `dir`: each is processed at
/// its own relative path; its files and errors are collected, and its classes
/// are kept under its name.
pub open spec fn subdirectories_upto(
    dir: SourceDirectory,
    k: nat,
    relative_path: Seq<char>,
    selected_role: Seq<char>,
    roles: Seq<RoleView>,
) -> LevelState
    decreases dir, 0int, k,
{
    if k == 0 || k > dir.directories@.len() {
        empty_level()
    } else {
        let previous = subdirectories_upto(dir, (k - 1) as nat, relative_path, selected_role, roles);
        let sub = dir.directories@[k - 1];
        proof {
            assert(decreases_to!(dir => dir.directories));
            assert(decreases_to!(dir.directories => dir.directories@));
            assert(decreases_to!(dir.directories@ => dir.directories@[k - 1]));
        }
        let outcome = directory_outcome(
            sub,
            relative_path + sub.name@ + "/"@,
            selected_role,
            roles,
        );
        LevelState {
            subclasses: insert_entry(previous.subclasses, sub.name@, outcome.classes),
            classes: previous.classes,
            files: previous.files + outcome.files,
            errors: previous.errors + outcome.errors,
        }
    }
}

/// Every source in the tree has fewer than `usize::MAX` bytes.
pub open spec fn contents_fit(dir: SourceDirectory) -> bool
    decreases dir, 1int, 0nat,
{
    &&& forall|i: int| 0 <= i < dir.files@.len() ==> #[trigger] dir.files@[i].content@.len() < usize::MAX
    &&& subdirectories_fit(dir, dir.directories@.len())
}

/// The first `k` subdirectories of `dir` satisfy [`contents_fit`].
pub open spec fn subdirectories_fit(dir: SourceDirectory, k: nat) -> bool
    decreases dir, 0int, k,
{
    if k == 0 || k > dir.directories@.len() {
        true
    } else {
        proof {
            assert(decreases_to!(dir => dir.directories));
            assert(decreases_to!(dir.directories => dir.directories@));
            assert(decreases_to!(dir.directories@ => dir.directories@[k - 1]));
        }
        subdirectories_fit(dir, (k - 1) as nat) && contents_fit(dir.directories@[k - 1])
    }
}

proof fn lemma_subdirectory_fits(dir: SourceDirectory, k: nat, i: int)
    requires
        subdirectories_fit(dir, k),
        0 <= i < k <= dir.directories@.len(),
    ensures
        contents_fit(dir.directories@[i]),
    decreases k,
{
    if i < k - 1 {
        lemma_subdirectory_fits(dir, (k - 1) as nat, i);
    }
}

/// The processing state of one directory level; see [`LevelState`].
struct Level {
    subclasses: Vec<(String, Vec<(String, Vec<String>)>)>,
    classes: Vec<(String, Vec<String>)>,
    files: Vec<GeneratedFile>,
    errors: Vec<GenerationError>,
}

pub open spec fn subclass_views(entries: Seq<(String, Vec<(String, Vec<String>)>)>) -> Seq<
    (Seq<char>, ClassNames),
> {
    entries.map_values(|e: (String, Vec<(String, Vec<String>)>)| (e.0@, imports_views(e.1@)))
}

impl View for Level {
    type V = LevelState;

    closed spec fn view(&self) -> LevelState {
        LevelState {
            subclasses: subclass_views(self.subclasses@),
            classes: imports_views(self.classes@),
            files: file_views(self.files@),
            errors: error_views(self.errors@),
        }
    }
}

fn source_stem_exec(name: &String) -> (res: Option<String>)
    ensures
        match source_stem(name@) {
            Some(stem) => res matches Some(r) && r@ == stem,
            None => res is None,
        },
{
    let chars = str_chars(name.as_str());
    let mut suffix: Vec<char> = Vec::new();
    suffix.push('.');
    suffix.push('e');
    suffix.push('r');
    suffix.push('p');
    suffix.push('c');
    assert(suffix@ =~= erpc_suffix());
    if !ends_with(&chars, &suffix) {
        return None;
    }
    let stem = collect_string(&chars.as_slice()[0..chars.len() - 5]);
    assert(chars@.subrange(0, chars.len() - 5) =~= chars@.take(chars.len() - 5));
    Some(stem)
}

/// Lexes and parses a source; see [`read_source`].
fn read_source_exec(content: &Vec<u8>) -> (res: Result<
    Result<crate::parser::parse::ParseResult, crate::parser::error::ParseError>,
    InputReaderError,
>)
    requires
        content@.len() < usize::MAX,
    ensures
        res matches Err(e) ==> e is Utf8,
        match read_source(content@) {
            SourceReading::Unreadable => res is Err,
            SourceReading::Invalid(e) => res matches Ok(Err(pe)) && pe@ == e,
            SourceReading::Parsed(endpoints, custom_types) => res matches Ok(Ok(r)) && endpoint_views(
                r.endpoints@,
            ) == endpoints && custom_type_views(r.custom_types@) == custom_types,
        },
{
    let reader = InputReader::new(content.as_slice());
    assert(reader@ == fresh_reader(content@));
    let mut tokens = match TokenReader::new(reader) {
        Ok(t) => t,
        Err(e) => {
            return Err(e);
        },
    };
    Ok(parse(&mut tokens))
}

/// `name` added to the class names of `role`; see [`add_class_name`].
fn add_class_name_exec(classes: &mut Vec<(String, Vec<String>)>, role: &String, name: &String)
    ensures
        imports_views(final(classes)@) == add_class_name(imports_views(old(classes)@), role@, name@),
{
    let ghost before = classes@;
    proof {
        lemma_group_index_keys(
            group_keys(classes@),
            imports_views(classes@),
            role@,
        );
    }
    match find_group(classes, role) {
        Some(k) => {
            let mut entry = classes.remove(k);
            let ghost old_names = entry.1@;
            entry.1.push(name.clone());
            assert(string_views(entry.1@)
                =~= string_views(old_names).push(name@));
            classes.insert(k, entry);
            assert(classes@ =~= before.update(k as int, classes@[k as int]));
            assert(imports_views(classes@) =~= add_class_name(imports_views(before), role@, name@));
        },
        None => {
            let mut names = Vec::new();
            names.push(name.clone());
            assert(string_views(names@) =~= seq![name@]);
            classes.push((role.clone(), names));
            assert(imports_views(classes@) =~= add_class_name(imports_views(before), role@, name@));
        },
    }
}

/// Processes one file of a directory; see [`process_file`].
fn process_file_exec(
    level: &mut Level,
    file: &SourceFile,
    relative_path: &String,
    selected_role: &str,
    roles: &Vec<Role>,
)
    requires
        file.content@.len() < usize::MAX,
        unreadable_from_utf8(old(level).errors@),
    ensures
        unreadable_from_utf8(final(level).errors@),
        final(level)@ == process_file(
            old(level)@,
            file.name@,
            file.content@,
            pair_views(file.float_texts@),
            relative_path@,
            selected_role@,
            role_views(roles@),
        ),
{
    let stem = match source_stem_exec(&file.name) {
        None => {
            return ;
        },
        Some(s) => s,
    };
    let mut source = relative_path.clone();
    source.append(file.name.as_str());
    let ghost start = level@;
    match read_source_exec(&file.content) {
        Err(error) => {
            let ghost before = level.errors@;
            level.errors.push(GenerationError::Unreadable { source, error });
            assert(error_views(level.errors@) =~= error_views(before).push(
                GenerationErrorView::Unreadable { source: source@ },
            ));
        },
        Ok(Err(e)) => {
            let ghost before = level.errors@;
            let ghost ev = e@;
            level.errors.push(
                GenerationError::Diagnostic {
                    source,
                    range: Range { start: e.start, end: e.end },
                    message: e.message,
                },
            );
            assert(error_views(level.errors@) =~= error_views(before).push(
                GenerationErrorView::Diagnostic {
                    source: source@,
                    range: Range { start: ev.start, end: ev.end },
                    message: ev.message,
                },
            ));
        },
        Ok(Ok(result)) => {
            let crate::parser::parse::ParseResult { endpoints, custom_types } = result;
            let problems = validate(&endpoints, &custom_types, roles);
            let ghost pv = validation_error_views(problems@);
            if problems.len() > 0 {
                let ghost before = error_views(level.errors@);
                let mut i: usize = 0;
                while i < problems.len()
                    invariant
                        i <= problems.len(),
                        pv == validation_error_views(problems@),
                        pv.len() == problems.len(),
                        level@ == (LevelState { errors: level@.errors, ..start }),
                        unreadable_from_utf8(level.errors@),
                        error_views(level.errors@) == before + Seq::new(
                            i as nat,
                            |j: int| diagnostic_of(source@, pv[j]),
                        ),
                    decreases problems.len() - i,
                {
                    let ghost prev = level.errors@;
                    assert(pv[i as int] == problems@[i as int]@);
                    level.errors.push(
                        GenerationError::Diagnostic {
                            source: source.clone(),
                            range: problems[i].range,
                            message: problems[i].message.clone(),
                        },
                    );
                    assert(error_views(level.errors@) =~= error_views(prev).push(
                        diagnostic_of(source@, pv[i as int]),
                    ));
                    assert(before + Seq::new((i + 1) as nat, |j: int| diagnostic_of(source@, pv[j]))
                        =~= (before + Seq::new(i as nat, |j: int| diagnostic_of(source@, pv[j]))).push(
                        diagnostic_of(source@, pv[i as int]),
                    ));
                    i = i + 1;
                }
                assert(Seq::new(i as nat, |j: int| diagnostic_of(source@, pv[j])) =~= pv.map_values(
                    |p: ValidationErrorView| diagnostic_of(source@, p),
                ));
                return ;
            }
            let empty: Vec<(String, Vec<String>)> = Vec::new();
            let found = find_group(&level.subclasses, &stem);
            proof {
                lemma_group_index_keys(
                    group_keys(level.subclasses@),
                    subclass_views(level.subclasses@),
                    stem@,
                );
            }
            let imports = match found {
                Some(k) => &level.subclasses[k].1,
                None => &empty,
            };
            assert(imports_views(imports@) == entry_or(
                level@.subclasses,
                stem@,
                Seq::<(Seq<char>, Seq<Seq<char>>)>::empty(),
            )) by {
                match found {
                    Some(k) => {
                        assert(subclass_views(level.subclasses@)[k as int] == (
                            level.subclasses@[k as int].0@,
                            imports_views(level.subclasses@[k as int].1@),
                        ));
                    },
                    None => {
                        assert(imports_views(empty@) =~= Seq::<(Seq<char>, Seq<Seq<char>>)>::empty());
                    },
                }
            }
            let endpoints = printed_endpoints(&file.float_texts, endpoints);
            let custom_types = printed_custom_types(&file.float_texts, custom_types);
            let generated = generate_classes_per_role(
                stem.as_str(),
                relative_path.as_str(),
                endpoints,
                selected_role,
                &custom_types,
                imports,
            );
            let ghost gv = pair_views(generated@);
            let ghost files0 = file_views(level.files@);
            let ghost classes0 = imports_views(level.classes@);
            let mut i: usize = 0;
            while i < generated.len()
                invariant
                    i <= generated.len(),
                    gv == pair_views(generated@),
                    gv.len() == generated.len(),
                    level@.subclasses == start.subclasses,
                    level@.errors == start.errors,
                    level.subclasses@ == old(level).subclasses@,
                    level.errors@ == old(level).errors@,
                    file_views(level.files@) == files0 + Seq::new(
                        i as nat,
                        |j: int| class_file(relative_path@, stem@, gv[j]),
                    ),
                    imports_views(level.classes@) == add_class_names(classes0, gv.take(i as int), stem@),
                decreases generated.len() - i,
            {
                let (role, content) = &generated[i];
                assert(gv[i as int] == (role@, content@));
                let mut directory = role.clone();
                directory.append("/");
                directory.append(relative_path.as_str());
                let mut file_name = stem.clone();
                file_name.append(".ts");
                let ghost prev = level.files@;
                level.files.push(GeneratedFile { directory, file_name, content: content.clone() });
                assert(file_views(level.files@) =~= file_views(prev).push(
                    class_file(relative_path@, stem@, gv[i as int]),
                ));
                assert(files0 + Seq::new((i + 1) as nat, |j: int| class_file(relative_path@, stem@, gv[j]))
                    =~= (files0 + Seq::new(i as nat, |j: int| class_file(relative_path@, stem@, gv[j]))).push(
                    class_file(relative_path@, stem@, gv[i as int]),
                ));
                add_class_name_exec(&mut level.classes, role, &stem);
                assert(gv.take(i + 1).drop_last() =~= gv.take(i as int));
                i = i + 1;
            }
            assert(gv.take(i as int) =~= gv);
            assert(Seq::new(i as nat, |j: int| class_file(relative_path@, stem@, gv[j])) =~= gv.map_values(
                |c: (Seq<char>, Seq<char>)| class_file(relative_path@, stem@, c),
            ));
            match found {
                Some(k) => {
                    let ghost before = level.subclasses@;
                    let _ = level.subclasses.remove(k);
                    assert(subclass_views(level.subclasses@) =~= subclass_views(before).remove(k as int));
                },
                None => {},
            }
        },
    }
}

/// Keeps `value` as the classes of the subdirectory `key`; see [`insert_entry`].
fn insert_subclasses(
    entries: &mut Vec<(String, Vec<(String, Vec<String>)>)>,
    key: String,
    value: Vec<(String, Vec<String>)>,
)
    ensures
        subclass_views(final(entries)@) == insert_entry(
            subclass_views(old(entries)@),
            key@,
            imports_views(value@),
        ),
{
    let ghost before = entries@;
    let ghost entry = (key@, imports_views(value@));
    proof {
        lemma_group_index_keys(
            group_keys(entries@),
            subclass_views(entries@),
            key@,
        );
    }
    match find_group(entries, &key) {
        Some(k) => {
            let _ = entries.remove(k);
            entries.insert(k, (key, value));
            assert(entries@ =~= before.update(k as int, entries@[k as int]));
            assert(subclass_views(entries@) =~= subclass_views(before).update(k as int, entry));
        },
        None => {
            entries.push((key, value));
            assert(subclass_views(entries@) =~= subclass_views(before).push(entry));
        },
    }
}

/// Processes a directory of sources at `relative_path`: first its
/// subdirectories, then its files; see [`directory_outcome`].
fn process_directory(
    dir: &SourceDirectory,
    relative_path: &String,
    selected_role: &str,
    roles: &Vec<Role>,
) -> (level: Level)
    requires
        contents_fit(*dir),
    ensures
        unreadable_from_utf8(level.errors@),
        level@ == directory_outcome(*dir, relative_path@, selected_role@, role_views(roles@)),
    decreases dir,
{
    let ghost rv = role_views(roles@);
    let mut level = Level {
        subclasses: Vec::new(),
        classes: Vec::new(),
        files: Vec::new(),
        errors: Vec::new(),
    };
    assert(level@ == empty_level()) by {
        assert(subclass_views(level.subclasses@) =~= Seq::empty());
        assert(imports_views(level.classes@) =~= Seq::empty());
        assert(file_views(level.files@) =~= Seq::empty());
        assert(error_views(level.errors@) =~= Seq::empty());
    }
    let mut i: usize = 0;
    while i < dir.directories.len()
        invariant
            i <= dir.directories.len(),
            contents_fit(*dir),
            rv == role_views(roles@),
            level@ == subdirectories_upto(*dir, i as nat, relative_path@, selected_role@, rv),
            unreadable_from_utf8(level.errors@),
        decreases dir.directories.len() - i,
    {
        let sub = &dir.directories[i];
        proof {
            lemma_subdirectory_fits(*dir, dir.directories@.len(), i as int);
            assert(decreases_to!(dir => dir.directories));
            assert(decreases_to!(dir.directories => dir.directories@));
            assert(decreases_to!(dir.directories@ => dir.directories@[i as int]));
        }
        let mut path = relative_path.clone();
        path.append(sub.name.as_str());
        path.append("/");
        let outcome = process_directory(sub, &path, selected_role, roles);
        let ghost before = level@;
        let Level { subclasses: _, classes, mut files, mut errors } = outcome;
        insert_subclasses(&mut level.subclasses, sub.name.clone(), classes);
        let ghost files_before = level.files@;
        let ghost errors_before = level.errors@;
        let ghost added_files = files@;
        let ghost added_errors = errors@;
        level.files.append(&mut files);
        level.errors.append(&mut errors);
        assert(file_views(level.files@) =~= file_views(files_before) + file_views(added_files));
        assert(error_views(level.errors@) =~= error_views(errors_before) + error_views(added_errors));
        i = i + 1;
    }
    let ghost base = level@;
    let mut j: usize = 0;
    assert(dir.files@.take(0) =~= Seq::<SourceFile>::empty());
    while j < dir.files.len()
        invariant
            j <= dir.files.len(),
            contents_fit(*dir),
            rv == role_views(roles@),
            base == subdirectories_upto(*dir, dir.directories@.len(), relative_path@, selected_role@, rv),
            level@ == files_from(dir.files@.take(j as int), base, relative_path@, selected_role@, rv),
            unreadable_from_utf8(level.errors@),
        decreases dir.files.len() - j,
    {
        assert(dir.files@.take(j + 1).drop_last() =~= dir.files@.take(j as int));
        assert(dir.files@.take(j + 1).last() == dir.files@[j as int]);
        process_file_exec(&mut level, &dir.files[j], relative_path, selected_role, roles);
        j = j + 1;
    }
    assert(dir.files@.take(j as int) =~= dir.files@);
    let ghost after_files = level@;
    let mut subclasses: Vec<(String, Vec<(String, Vec<String>)>)> = Vec::new();
    std::mem::swap(&mut subclasses, &mut level.subclasses);
    let ghost entries = subclass_views(subclasses@);
    assert(level@ == (LevelState { subclasses: Seq::empty(), ..after_files })) by {
        assert(subclass_views(level.subclasses@) =~= Seq::<(Seq<char>, ClassNames)>::empty());
    }
    let ghost base = level@;
    let mut k: usize = 0;
    assert(entries.take(0) =~= Seq::<(Seq<char>, ClassNames)>::empty());
    while k < subclasses.len()
        invariant
            k <= subclasses.len(),
            entries == subclass_views(subclasses@),
            entries.len() == subclasses.len(),
            level@ == wrappers_from(entries.take(k as int), base, relative_path@, selected_role@),
            unreadable_from_utf8(level.errors@),
        decreases subclasses.len() - k,
    {
        let (name, per_role) = &subclasses[k];
        assert(entries[k as int] == (name@, imports_views(per_role@)));
        assert(entries.take(k + 1).drop_last() =~= entries.take(k as int));
        assert(entries.take(k + 1).last() == entries[k as int]);
        add_wrappers(&mut level, name, per_role, relative_path, selected_role);
        k = k + 1;
    }
    assert(entries.take(k as int) =~= entries);
    level
}

/// Adds the wrapper classes of the subdirectory `name`; see [`wrapper_classes`].
fn add_wrappers(
    level: &mut Level,
    name: &String,
    per_role: &Vec<(String, Vec<String>)>,
    relative_path: &String,
    selected_role: &str,
)
    ensures
        final(level).errors@ == old(level).errors@,
        final(level)@ == add_generated(
            old(level)@,
            relative_path@,
            name@,
            wrapper_classes(name@, relative_path@, selected_role@, imports_views(per_role@)),
        ),
{
    let ghost gv = wrapper_classes(name@, relative_path@, selected_role@, imports_views(per_role@));
    let ghost pv = imports_views(per_role@);
    let ghost files0 = file_views(level.files@);
    let ghost classes0 = imports_views(level.classes@);
    let no_endpoints: Vec<Endpoint> = Vec::new();
    let no_types: Vec<CustomType> = Vec::new();
    assert(endpoint_views(no_endpoints@) =~= Seq::<EndpointView>::empty());
    assert(custom_type_views(no_types@) =~= Seq::<CustomTypeView>::empty());
    let mut i: usize = 0;
    assert(gv.take(0) =~= Seq::<(Seq<char>, Seq<char>)>::empty());
    assert(files0 + Seq::new(0, |j: int| class_file(relative_path@, name@, gv[j])) =~= files0);
    while i < per_role.len()
        invariant
            i <= per_role.len(),
            gv == wrapper_classes(name@, relative_path@, selected_role@, pv),
            pv == imports_views(per_role@),
            gv.len() == per_role.len(),
            endpoint_views(no_endpoints@) == Seq::<EndpointView>::empty(),
            custom_type_views(no_types@) == Seq::<CustomTypeView>::empty(),
            level.subclasses@ == old(level).subclasses@,
            level.errors@ == old(level).errors@,
            file_views(level.files@) == files0 + Seq::new(
                i as nat,
                |j: int| class_file(relative_path@, name@, gv[j]),
            ),
            imports_views(level.classes@) == add_class_names(classes0, gv.take(i as int), name@),
        decreases per_role.len() - i,
    {
        let (role, imports) = &per_role[i];
        assert(pv[i as int] == (role@, string_views(imports@)));
        let foreign = !same_text(role.as_str(), selected_role);
        let content = generate_class(
            name.as_str(),
            relative_path.as_str(),
            &no_endpoints,
            foreign,
            imports,
            &no_types,
        );
        assert(gv[i as int] == (role@, content@));
        let mut directory = role.clone();
        directory.append("/");
        directory.append(relative_path.as_str());
        let mut file_name = name.clone();
        file_name.append(".ts");
        let ghost prev = level.files@;
        level.files.push(GeneratedFile { directory, file_name, content });
        assert(file_views(level.files@) =~= file_views(prev).push(
            class_file(relative_path@, name@, gv[i as int]),
        ));
        assert(files0 + Seq::new((i + 1) as nat, |j: int| class_file(relative_path@, name@, gv[j]))
            =~= (files0 + Seq::new(i as nat, |j: int| class_file(relative_path@, name@, gv[j]))).push(
            class_file(relative_path@, name@, gv[i as int]),
        ));
        add_class_name_exec(&mut level.classes, role, name);
        assert(gv.take(i + 1).drop_last() =~= gv.take(i as int));
        i = i + 1;
    }
    assert(gv.take(i as int) =~= gv);
    assert(Seq::new(i as nat, |j: int| class_file(relative_path@, name@, gv[j])) =~= gv.map_values(
        |c: (Seq<char>, Seq<char>)| class_file(relative_path@, name@, c),
    ));
    assert(subclass_views(level.subclasses@) == old(level)@.subclasses);
    assert(error_views(level.errors@) == old(level)@.errors);
}

/// `k` is the index of the first role named `name`.
pub open spec fn is_first_role(roles: Seq<RoleView>, name: Seq<char>, k: int) -> bool {
    &&& 0 <= k < roles.len()
    &&& roles[k].name == name
    &&& forall|j: int| 0 <= j < k ==> roles[j].name != name
}

/// The first role named `name`, if there is one.
pub open spec fn find_role(roles: Seq<RoleView>, name: Seq<char>) -> Option<RoleView> {
    if exists|k: int| is_first_role(roles, name, k) {
        Some(roles[choose|k: int| is_first_role(roles, name, k)])
    } else {
        None
    }
}

/// The roles, in their configured order, that classes were generated for and
/// whose types include `browser`: those whose clients take websocket connections.
pub open spec fn browser_roles_with_classes(roles: Seq<RoleView>, classes: ClassNames) -> Seq<Seq<char>>
    decreases roles.len(),
{
    if roles.len() == 0 {
        Seq::empty()
    } else {
        let rest = browser_roles_with_classes(roles.drop_last(), classes);
        let role = roles.last();
        if group_index(classes, role.name) is Some && role.types.contains("browser"@) {
            rest.push(role.name)
        } else {
            rest
        }
    }
}

/// The package that the clients import: the browser one when the selected
/// role is a browser, else the node one.
pub open spec fn library_source(selected: RoleView) -> Seq<char> {
    if selected.types.contains("browser"@) {
        "@easy-rpc/browser"@
    } else {
        "@easy-rpc/node"@
    }
}

/// The client of `role`, importing its top-level `classes`: it serves them for
/// the selected role and calls them for the others.
pub open spec fn client_file(
    role: RoleView,
    classes: Seq<Seq<char>>,
    selected_role: Seq<char>,
    browser_roles: Seq<Seq<char>>,
    source: Seq<char>,
) -> GeneratedFileView {
    GeneratedFileView {
        directory: Seq::empty(),
        file_name: role.name + ".ts"@,
        content: if role.name != selected_role {
            foreign_client_text(classes, role, browser_roles, source)
        } else {
            callback_client_text(classes, role, browser_roles, source)
        },
    }
}

/// The client files for the roles that classes were generated for, in order,
/// and an error for each such role that is not configured.
pub open spec fn clients_outcome(
    classes: ClassNames,
    roles: Seq<RoleView>,
    selected_role: Seq<char>,
    browser_roles: Seq<Seq<char>>,
    source: Seq<char>,
) -> (Seq<GeneratedFileView>, Seq<GenerationErrorView>)
    decreases classes.len(),
{
    if classes.len() == 0 {
        (Seq::empty(), Seq::empty())
    } else {
        let (files, errors) = clients_outcome(classes.drop_last(), roles, selected_role, browser_roles, source);
        let (name, imports) = classes.last();
        match find_role(roles, name) {
            Some(role) => (files.push(client_file(role, imports, selected_role, browser_roles, source)), errors),
            None => (files, errors.push(GenerationErrorView::UnknownRole { role: name })),
        }
    }
}

/// What generating code for the source tree `root` gives: the class files of
/// all levels, then a client per role that classes were generated for; and
/// the errors met.
pub open spec fn generation(root: SourceDirectory, selected_role: Seq<char>, roles: Seq<RoleView>) -> (
    Seq<GeneratedFileView>,
    Seq<GenerationErrorView>,
) {
    let level = directory_outcome(root, Seq::empty(), selected_role, roles);
    let browser_roles = browser_roles_with_classes(roles, level.classes);
    let source = library_source(find_role(roles, selected_role).unwrap());
    let (clients, client_errors) = clients_outcome(level.classes, roles, selected_role, browser_roles, source);
    (level.files + clients, level.errors + client_errors)
}

/// Finds the first role named `name`.
fn find_role_exec<'a>(roles: &'a Vec<Role>, name: &str) -> (res: Option<&'a Role>)
    ensures
        match find_role(role_views(roles@), name@) {
            Some(r) => res matches Some(role) && role@ == r,
            None => res is None,
        },
{
    let ghost rv = role_views(roles@);
    let mut i: usize = 0;
    while i < roles.len()
        invariant
            i <= roles.len(),
            rv == role_views(roles@),
            rv.len() == roles.len(),
            forall|j: int| 0 <= j < i ==> rv[j].name != name@,
        decreases roles.len() - i,
    {
        assert(rv[i as int] == roles@[i as int]@);
        if same_text(roles[i].name.as_str(), name) {
            assert(is_first_role(rv, name@, i as int));
            assert forall|k: int| is_first_role(rv, name@, k) implies k == i by {
                if k < i {
                } else if k > i {
                    assert(rv[i as int].name == name@);
                }
            }
            return Some(&roles[i]);
        }
        i = i + 1;
    }
    assert forall|k: int| !is_first_role(rv, name@, k) by {}
    None
}

/// The names of the configured browser roles that classes were generated for;
/// see [`browser_roles_with_classes`].
fn browser_roles_exec(roles: &Vec<Role>, classes: &Vec<(String, Vec<String>)>) -> (res: Vec<String>)
    ensures
        string_views(res@) == browser_roles_with_classes(role_views(roles@), imports_views(classes@)),
{
    let ghost rv = role_views(roles@);
    let ghost cv = imports_views(classes@);
    proof {
        lemma_group_index_keys(group_keys(classes@), cv, Seq::empty());
    }
    let mut res: Vec<String> = Vec::new();
    let mut i: usize = 0;
    assert(rv.take(0) =~= Seq::<RoleView>::empty());
    while i < roles.len()
        invariant
            i <= roles.len(),
            rv == role_views(roles@),
            rv.len() == roles.len(),
            cv == imports_views(classes@),
            string_views(res@) == browser_roles_with_classes(rv.take(i as int), cv),
        decreases roles.len() - i,
    {
        let role = &roles[i];
        assert(rv[i as int] == role@);
        assert(rv.take(i + 1).drop_last() =~= rv.take(i as int));
        assert(rv.take(i + 1).last() == role@);
        proof {
            lemma_group_index_keys(group_keys(classes@), cv, role@.name);
        }
        assert(string_views(role.types@) =~= role@.types);
        let has_classes = find_group(classes, &role.name).is_some();
        if has_classes && contains_text(&role.types, "browser") {
            let ghost before = res@;
            res.push(role.name.clone());
            assert(string_views(res@) =~= string_views(before).push(role@.name));
        }
        i = i + 1;
    }
    assert(rv.take(i as int) =~= rv);
    res
}

/// Generates the code for a tree of `.erpc` sources: for each source, a class
/// per role that has endpoints in it, in the directory `<role>/<relative
/// path>/`; and for each role that got classes, a client `<role>.ts` in the
/// top directory that imports the classes of the top level. A subdirectory
/// without a source of its name on its level gets a wrapper class per role that
/// imports its classes. Sources that can't
/// be read or parsed, or that have logical errors, give errors and no classes.
/// The selected role must be configured.
pub fn generate_for_directory(
    source_directory: &SourceDirectory,
    selected_role_name: &str,
    roles: &Vec<Role>,
) -> (res: (Vec<GeneratedFile>, Vec<GenerationError>))
    requires
        contents_fit(*source_directory),
        exists|k: int| 0 <= k < roles.len() && roles@[k].name@ == selected_role_name@,
    ensures
        unreadable_from_utf8(res.1@),
        (file_views(res.0@), error_views(res.1@)) == generation(
            *source_directory,
            selected_role_name@,
            role_views(roles@),
        ),
{
    let ghost rv = role_views(roles@);
    let top = String::new();
    let level = process_directory(source_directory, &top, selected_role_name, roles);
    let Level { subclasses: _, classes, mut files, mut errors } = level;
    let socket_enabled_browser_roles = browser_roles_exec(roles, &classes);
    let selected = match find_role_exec(roles, selected_role_name) {
        Some(r) => r,
        None => {
            proof {
                let k = choose|k: int| 0 <= k < roles.len() && roles@[k].name@ == selected_role_name@;
                assert(rv[k].name == selected_role_name@);
                assert(exists|k: int| is_first_role(rv, selected_role_name@, k)) by {
                    lemma_first_role_exists(rv, selected_role_name@, k);
                }
            }
            return (files, errors);
        },
    };
    let source = if contains_text(&selected.types, "browser") {
        "@easy-rpc/browser"
    } else {
        "@easy-rpc/node"
    };
    assert(string_views(selected.types@) =~= selected@.types);
    let ghost cv = imports_views(classes@);
    let ghost bv = string_views(socket_enabled_browser_roles@);
    let ghost level_files = file_views(files@);
    let ghost level_errors = error_views(errors@);
    let mut i: usize = 0;
    assert(cv.take(0) =~= Seq::<(Seq<char>, Seq<Seq<char>>)>::empty());
    assert(level_files + Seq::<GeneratedFileView>::empty() =~= level_files);
    assert(level_errors + Seq::<GenerationErrorView>::empty() =~= level_errors);
    while i < classes.len()
        invariant
            i <= classes.len(),
            rv == role_views(roles@),
            cv == imports_views(classes@),
            cv.len() == classes.len(),
            bv == string_views(socket_enabled_browser_roles@),
            unreadable_from_utf8(errors@),
            (file_views(files@), error_views(errors@)) == ({
                let (fs, es) = clients_outcome(cv.take(i as int), rv, selected_role_name@, bv, source@);
                (level_files + fs, level_errors + es)
            }),
        decreases classes.len() - i,
    {
        let (name, imports) = &classes[i];
        assert(cv[i as int] == (name@, string_views(imports@)));
        assert(cv.take(i + 1).drop_last() =~= cv.take(i as int));
        assert(cv.take(i + 1).last() == cv[i as int]);
        let ghost (fs, es) = clients_outcome(cv.take(i as int), rv, selected_role_name@, bv, source@);
        match find_role_exec(roles, name.as_str()) {
            Some(role) => {
                let foreign = !same_text(role.name.as_str(), selected_role_name);
                let content = generate_client(
                    foreign,
                    imports,
                    role,
                    &socket_enabled_browser_roles,
                    source,
                );
                let mut file_name = role.name.clone();
                file_name.append(".ts");
                let ghost before = files@;
                files.push(GeneratedFile { directory: String::new(), file_name, content });
                assert(file_views(files@) =~= file_views(before).push(
                    client_file(role@, string_views(imports@), selected_role_name@, bv, source@),
                ));
                assert(level_files + fs.push(
                    client_file(role@, string_views(imports@), selected_role_name@, bv, source@),
                ) =~= (level_files + fs).push(
                    client_file(role@, string_views(imports@), selected_role_name@, bv, source@),
                ));
            },
            None => {
                let ghost before = errors@;
                errors.push(GenerationError::UnknownRole { role: name.clone() });
                assert(error_views(errors@) =~= error_views(before).push(
                    GenerationErrorView::UnknownRole { role: name@ },
                ));
                assert(level_errors + es.push(GenerationErrorView::UnknownRole { role: name@ })
                    =~= (level_errors + es).push(GenerationErrorView::UnknownRole { role: name@ }));
            },
        }
        i = i + 1;
    }
    assert(cv.take(i as int) =~= cv);
    (files, errors)
}

proof fn lemma_first_role_exists(roles: Seq<RoleView>, name: Seq<char>, k: int)
    requires
        0 <= k < roles.len(),
        roles[k].name == name,
    ensures
        exists|j: int| is_first_role(roles, name, j),
    decreases k,
{
    if exists|j: int| 0 <= j < k && roles[j].name == name {
        let j = choose|j: int| 0 <= j < k && roles[j].name == name;
        lemma_first_role_exists(roles, name, j);
    } else {
        assert(is_first_role(roles, name, k));
    }
}

/// What checking the middleware source `source` with the content `bytes`
/// gives: its endpoints, or the errors that make it unusable.
pub open spec fn middleware_outcome(source: Seq<char>, bytes: Seq<u8>, roles: Seq<RoleView>) -> Result<
    Seq<EndpointView>,
    Seq<GenerationErrorView>,
> {
    match read_source(bytes) {
        SourceReading::Unreadable => Err(seq![GenerationErrorView::Unreadable { source }]),
        SourceReading::Invalid(e) => Err(
            seq![
                GenerationErrorView::Diagnostic {
                    source,
                    range: Range { start: e.start, end: e.end },
                    message: e.message,
                },
            ],
        ),
        SourceReading::Parsed(endpoints, custom_types) => {
            let problems = spec_validate(endpoints, custom_types, roles);
            if problems.len() > 0 {
                Err(problems.map_values(|p: ValidationErrorView| diagnostic_of(source, p)))
            } else {
                Ok(endpoints)
            }
        },
    }
}

/// Reads the middleware definitions of a project (the source `middleware.erpc`
/// with the content `content`): its endpoints when it lexes, parses and
/// validates; else the errors, in the order in which they were found.
pub fn read_middleware(source: &str, content: &Vec<u8>, roles: &Vec<Role>) -> (res: Result<
    Vec<Endpoint>,
    Vec<GenerationError>,
>)
    requires
        content@.len() < usize::MAX,
    ensures
        match middleware_outcome(source@, content@, role_views(roles@)) {
            Ok(endpoints) => res matches Ok(r) && endpoint_views(r@) == endpoints,
            Err(errors) => res matches Err(r) && error_views(r@) == errors,
        },
        res matches Err(r) ==> unreadable_from_utf8(r@),
{
    let mut errors: Vec<GenerationError> = Vec::new();
    match read_source_exec(content) {
        Err(error) => {
            errors.push(GenerationError::Unreadable { source: String::from_str(source), error });
            assert(errors@.len() == 1);
            assert(error_views(errors@) =~= seq![GenerationErrorView::Unreadable { source: source@ }]);
            Err(errors)
        },
        Ok(Err(e)) => {
            let ghost ev = e@;
            errors.push(
                GenerationError::Diagnostic {
                    source: String::from_str(source),
                    range: Range { start: e.start, end: e.end },
                    message: e.message,
                },
            );
            assert(error_views(errors@) =~= seq![
                GenerationErrorView::Diagnostic {
                    source: source@,
                    range: Range { start: ev.start, end: ev.end },
                    message: ev.message,
                },
            ]);
            Err(errors)
        },
        Ok(Ok(result)) => {
            let crate::parser::parse::ParseResult { endpoints, custom_types } = result;
            let problems = validate(&endpoints, &custom_types, roles);
            let ghost pv = validation_error_views(problems@);
            if problems.len() == 0 {
                return Ok(endpoints);
            }
            let mut i: usize = 0;
            while i < problems.len()
                invariant
                    i <= problems.len(),
                    pv == validation_error_views(problems@),
                    pv.len() == problems.len(),
                    error_views(errors@) == Seq::new(i as nat, |j: int| diagnostic_of(source@, pv[j])),
                    unreadable_from_utf8(errors@),
                decreases problems.len() - i,
            {
                let ghost prev = errors@;
                assert(pv[i as int] == problems@[i as int]@);
                errors.push(
                    GenerationError::Diagnostic {
                        source: String::from_str(source),
                        range: problems[i].range,
                        message: problems[i].message.clone(),
                    },
                );
                assert(error_views(errors@) =~= error_views(prev).push(diagnostic_of(source@, pv[i as int])));
                assert(Seq::new((i + 1) as nat, |j: int| diagnostic_of(source@, pv[j])) =~= Seq::new(
                    i as nat,
                    |j: int| diagnostic_of(source@, pv[j]),
                ).push(diagnostic_of(source@, pv[i as int])));
                i = i + 1;
            }
            assert(Seq::new(i as nat, |j: int| diagnostic_of(source@, pv[j])) =~= pv.map_values(
                |p: ValidationErrorView| diagnostic_of(source@, p),
            ));
            Err(errors)
        },
    }
}

/// No two entries have the same key.
pub open spec fn distinct_keys<T>(entries: Seq<(Seq<char>, T)>) -> bool {
    forall|i: int, j: int| 0 <= i < j < entries.len() ==> entries[i].0 != entries[j].0
}

proof fn lemma_add_class_name_distinct(classes: ClassNames, role: Seq<char>, name: Seq<char>)
    requires
        distinct_keys(classes),
    ensures
        distinct_keys(add_class_name(classes, role, name)),
{
    lemma_group_index(classes, role);
}

proof fn lemma_add_class_names_distinct(
    classes: ClassNames,
    generated: Seq<(Seq<char>, Seq<char>)>,
    name: Seq<char>,
)
    requires
        distinct_keys(classes),
    ensures
        distinct_keys(add_class_names(classes, generated, name)),
    decreases generated.len(),
{
    if generated.len() > 0 {
        lemma_add_class_names_distinct(classes, generated.drop_last(), name);
        lemma_add_class_name_distinct(
            add_class_names(classes, generated.drop_last(), name),
            generated.last().0,
            name,
        );
    }
}

/// What the processing of a level keeps: the roles of its class names are
/// distinct, and every file it collects lies in a subdirectory.
pub open spec fn level_kept(state: LevelState) -> bool {
    &&& distinct_keys(state.classes)
    &&& forall|i: int| 0 <= i < state.files.len() ==> #[trigger] state.files[i].directory.len() > 0
}

proof fn lemma_process_file_keeps(
    state: LevelState,
    file_name: Seq<char>,
    bytes: Seq<u8>,
    floats: FloatTexts,
    relative_path: Seq<char>,
    selected_role: Seq<char>,
    roles: Seq<RoleView>,
)
    requires
        level_kept(state),
    ensures
        level_kept(process_file(state, file_name, bytes, floats, relative_path, selected_role, roles)),
{
    if let Some(stem) = source_stem(file_name) {
        if let SourceReading::Parsed(endpoints, custom_types) = read_source(bytes) {
            if spec_validate(endpoints, custom_types, roles).len() == 0 {
                let generated = classes_per_role(
                    stem,
                    relative_path,
                    endpoints.map_values(|e: EndpointView| printed_endpoint(floats, e)),
                    selected_role,
                    custom_types.map_values(|c: CustomTypeView| printed_custom_type(floats, c)),
                    entry_or(state.subclasses, stem, Seq::empty()),
                );
                lemma_add_generated_keeps(
                    LevelState { subclasses: remove_entry(state.subclasses, stem), ..state },
                    relative_path,
                    stem,
                    generated,
                );
            }
        }
    }
}

proof fn lemma_files_from_keeps(
    files: Seq<SourceFile>,
    state: LevelState,
    relative_path: Seq<char>,
    selected_role: Seq<char>,
    roles: Seq<RoleView>,
)
    requires
        level_kept(state),
    ensures
        level_kept(files_from(files, state, relative_path, selected_role, roles)),
    decreases files.len(),
{
    if files.len() > 0 {
        lemma_files_from_keeps(files.drop_last(), state, relative_path, selected_role, roles);
        lemma_process_file_keeps(
            files_from(files.drop_last(), state, relative_path, selected_role, roles),
            files.last().name@,
            files.last().content@,
            pair_views(files.last().float_texts@),
            relative_path,
            selected_role,
            roles,
        );
    }
}

proof fn lemma_add_generated_keeps(
    state: LevelState,
    relative_path: Seq<char>,
    name: Seq<char>,
    generated: Seq<(Seq<char>, Seq<char>)>,
)
    requires
        level_kept(state),
    ensures
        level_kept(add_generated(state, relative_path, name, generated)),
{
    reveal_strlit("/");
    lemma_add_class_names_distinct(state.classes, generated, name);
    let files = add_generated(state, relative_path, name, generated).files;
    assert forall|i: int| 0 <= i < files.len() implies #[trigger] files[i].directory.len() > 0 by {
        if i >= state.files.len() {
            let c = generated[i - state.files.len()];
            assert(files[i] == class_file(relative_path, name, c));
            assert((c.0 + "/"@ + relative_path).len() >= 1);
        }
    }
}

proof fn lemma_wrappers_keep(
    entries: Seq<(Seq<char>, ClassNames)>,
    state: LevelState,
    relative_path: Seq<char>,
    selected_role: Seq<char>,
)
    requires
        level_kept(state),
    ensures
        level_kept(wrappers_from(entries, state, relative_path, selected_role)),
    decreases entries.len(),
{
    if entries.len() > 0 {
        lemma_wrappers_keep(entries.drop_last(), state, relative_path, selected_role);
        let (name, per_role) = entries.last();
        lemma_add_generated_keeps(
            wrappers_from(entries.drop_last(), state, relative_path, selected_role),
            relative_path,
            name,
            wrapper_classes(name, relative_path, selected_role, per_role),
        );
    }
}

proof fn lemma_directory_keeps(
    dir: SourceDirectory,
    relative_path: Seq<char>,
    selected_role: Seq<char>,
    roles: Seq<RoleView>,
)
    ensures
        level_kept(directory_outcome(dir, relative_path, selected_role, roles)),
    decreases dir, 1int, 0int,
{
    lemma_subdirectories_keep(dir, dir.directories@.len(), relative_path, selected_role, roles);
    let after_files = files_from(
        dir.files@,
        subdirectories_upto(dir, dir.directories@.len(), relative_path, selected_role, roles),
        relative_path,
        selected_role,
        roles,
    );
    lemma_files_from_keeps(
        dir.files@,
        subdirectories_upto(dir, dir.directories@.len(), relative_path, selected_role, roles),
        relative_path,
        selected_role,
        roles,
    );
    lemma_wrappers_keep(
        after_files.subclasses,
        LevelState { subclasses: Seq::empty(), ..after_files },
        relative_path,
        selected_role,
    );
}

proof fn lemma_subdirectories_keep(
    dir: SourceDirectory,
    k: nat,
    relative_path: Seq<char>,
    selected_role: Seq<char>,
    roles: Seq<RoleView>,
)
    ensures
        level_kept(subdirectories_upto(dir, k, relative_path, selected_role, roles)),
        subdirectories_upto(dir, k, relative_path, selected_role, roles).classes.len() == 0,
    decreases dir, 0int, k,
{
    if k > 0 && k <= dir.directories@.len() {
        lemma_subdirectories_keep(dir, (k - 1) as nat, relative_path, selected_role, roles);
        let sub = dir.directories@[k - 1];
        assert(decreases_to!(dir => dir.directories));
        assert(decreases_to!(dir.directories => dir.directories@));
        assert(decreases_to!(dir.directories@ => dir.directories@[k - 1]));
        let path = relative_path + sub.name@ + "/"@;
        lemma_directory_keeps(sub, path, selected_role, roles);
        let previous = subdirectories_upto(dir, (k - 1) as nat, relative_path, selected_role, roles);
        let outcome = directory_outcome(sub, path, selected_role, roles);
        let files = previous.files + outcome.files;
        assert forall|i: int| 0 <= i < files.len() implies #[trigger] files[i].directory.len() > 0 by {
            if i >= previous.files.len() {
                assert(files[i] == outcome.files[i - previous.files.len()]);
            }
        }
    }
}

/// Distinct stems give distinct `.ts` file names.
proof fn lemma_ts_names_differ(a: Seq<char>, b: Seq<char>)
    requires
        a != b,
    ensures
        a + ".ts"@ != b + ".ts"@,
{
    reveal_strlit(".ts");
    if a + ".ts"@ == b + ".ts"@ {
        assert((a + ".ts"@).len() == a.len() + ".ts"@.len());
        assert((b + ".ts"@).len() == b.len() + ".ts"@.len());
        assert(a =~= (a + ".ts"@).take(a.len() as int));
        assert(b =~= (b + ".ts"@).take(b.len() as int));
    }
}

proof fn lemma_clients_distinct(
    classes: ClassNames,
    roles: Seq<RoleView>,
    selected_role: Seq<char>,
    browser_roles: Seq<Seq<char>>,
    source: Seq<char>,
)
    requires
        distinct_keys(classes),
    ensures
        ({
            let files = clients_outcome(classes, roles, selected_role, browser_roles, source).0;
            &&& forall|i: int| 0 <= i < files.len() ==> #[trigger] files[i].directory.len() == 0
            &&& forall|i: int|
                0 <= i < files.len() ==> exists|k: int|
                    0 <= k < classes.len() && #[trigger] files[i].file_name == classes[k].0 + ".ts"@
            &&& forall|i: int, j: int|
                0 <= i < j < files.len() ==> files[i].file_name != files[j].file_name
        }),
    decreases classes.len(),
{
    if classes.len() > 0 {
        let rest = classes.drop_last();
        assert(distinct_keys(rest)) by {
            assert forall|i: int, j: int| 0 <= i < j < rest.len() implies rest[i].0 != rest[j].0 by {
                assert(rest[i] == classes[i] && rest[j] == classes[j]);
            }
        }
        lemma_clients_distinct(rest, roles, selected_role, browser_roles, source);
        let previous = clients_outcome(rest, roles, selected_role, browser_roles, source).0;
        let (name, imports) = classes.last();
        if let Some(role) = find_role(roles, name) {
            let k = choose|k: int| is_first_role(roles, name, k);
            assert(role.name == name);
            let files = previous.push(client_file(role, imports, selected_role, browser_roles, source));
            assert forall|i: int| 0 <= i < files.len() implies exists|m: int|
                0 <= m < classes.len() && #[trigger] files[i].file_name == classes[m].0 + ".ts"@ by {
                if i < previous.len() {
                    let m = choose|m: int|
                        0 <= m < rest.len() && #[trigger] previous[i].file_name == rest[m].0 + ".ts"@;
                    assert(classes[m] == rest[m]);
                } else {
                    assert(files[i].file_name == classes[classes.len() - 1].0 + ".ts"@);
                }
            }
            assert forall|i: int, j: int| 0 <= i < j < files.len() implies files[i].file_name
                != files[j].file_name by {
                if j == previous.len() {
                    let m = choose|m: int|
                        0 <= m < rest.len() && #[trigger] previous[i].file_name == rest[m].0 + ".ts"@;
                    assert(classes[m] == rest[m]);
                    assert(classes[m].0 != classes[classes.len() - 1].0);
                    lemma_ts_names_differ(rest[m].0, name);
                } else {
                    assert(files[i] == previous[i] && files[j] == previous[j]);
                }
            }
            assert forall|i: int| 0 <= i < files.len() implies #[trigger] files[i].directory.len() == 0 by {
                if i < previous.len() {
                    assert(files[i] == previous[i]);
                }
            }
        } else {
            assert forall|i: int| 0 <= i < previous.len() implies exists|m: int|
                0 <= m < classes.len() && #[trigger] previous[i].file_name == classes[m].0 + ".ts"@ by {
                let m = choose|m: int|
                    0 <= m < rest.len() && #[trigger] previous[i].file_name == rest[m].0 + ".ts"@;
                assert(classes[m] == rest[m]);
            }
        }
    }
}

/// Each role gets at most one client: the files of the top directory (the
/// clients; every class lies in the directory of its role) have distinct
/// names, each `<role>.ts` for a role that classes were generated for.
pub proof fn law_one_client_per_role(root: SourceDirectory, selected_role: Seq<char>, roles: Seq<RoleView>)
    ensures
        ({
            let files = generation(root, selected_role, roles).0;
            let level = directory_outcome(root, Seq::empty(), selected_role, roles);
            &&& forall|i: int, j: int|
                0 <= i < j < files.len() && files[i].directory.len() == 0 && files[j].directory.len()
                    == 0 ==> files[i].file_name != files[j].file_name
            &&& forall|i: int|
                0 <= i < files.len() && #[trigger] files[i].directory.len() == 0 ==> exists|k: int|
                    0 <= k < level.classes.len() && files[i].file_name == level.classes[k].0 + ".ts"@
        }),
{
    let level = directory_outcome(root, Seq::empty(), selected_role, roles);
    lemma_directory_keeps(root, Seq::empty(), selected_role, roles);
    let browser_roles = browser_roles_with_classes(roles, level.classes);
    let source = library_source(find_role(roles, selected_role).unwrap());
    lemma_clients_distinct(level.classes, roles, selected_role, browser_roles, source);
    let clients = clients_outcome(level.classes, roles, selected_role, browser_roles, source).0;
    let files = generation(root, selected_role, roles).0;
    assert(files == level.files + clients);
    assert forall|i: int| 0 <= i < files.len() && #[trigger] files[i].directory.len() == 0 implies i
        >= level.files.len() && files[i] == clients[i - level.files.len()] by {
        if i < level.files.len() {
            assert(files[i] == level.files[i]);
        }
    }
}

/// The browser roles that the clients treat as socket-enabled are exactly the
/// configured roles of type `browser` that classes were generated for.
pub proof fn law_browser_roles(roles: Seq<RoleView>, classes: ClassNames, name: Seq<char>)
    ensures
        browser_roles_with_classes(roles, classes).contains(name) <==> (exists|k: int|
            0 <= k < roles.len() && roles[k].name == name && roles[k].types.contains("browser"@))
            && (exists|c: int| 0 <= c < classes.len() && classes[c].0 == name),
    decreases roles.len(),
{
    lemma_group_index(classes, name);
    if roles.len() > 0 {
        let rest = roles.drop_last();
        let role = roles.last();
        law_browser_roles(rest, classes, name);
        let before = browser_roles_with_classes(rest, classes);
        lemma_group_index(classes, role.name);
        if browser_roles_with_classes(roles, classes).contains(name) {
            if before.contains(name) {
                let k = choose|k: int| 0 <= k < rest.len() && rest[k].name == name && rest[k].types.contains("browser"@);
                assert(roles[k] == rest[k]);
            } else {
                assert(group_index(classes, role.name) is Some && role.types.contains("browser"@));
                let j = choose|j: int| 0 <= j < browser_roles_with_classes(roles, classes).len() && browser_roles_with_classes(roles, classes)[j] == name;
                assert(browser_roles_with_classes(roles, classes) == before.push(role.name));
                if j < before.len() {
                    assert(before[j] == name);
                }
                assert(roles[roles.len() - 1] == role);
            }
        } else {
            if exists|k: int| 0 <= k < roles.len() && roles[k].name == name && roles[k].types.contains("browser"@) {
                if exists|c: int| 0 <= c < classes.len() && classes[c].0 == name {
                    let k = choose|k: int| 0 <= k < roles.len() && roles[k].name == name && roles[k].types.contains("browser"@);
                    if k < roles.len() - 1 {
                        assert(rest[k] == roles[k]);
                        let j = choose|j: int| 0 <= j < before.len() && before[j] == name;
                        if group_index(classes, role.name) is Some && role.types.contains("browser"@) {
                            assert(before.push(role.name)[j] == name);
                        }
                    } else {
                        assert(browser_roles_with_classes(roles, classes) == before.push(name));
                        assert(before.push(name)[before.len() as int] == name);
                    }
                }
            }
        }
    }
}

/// Every configured role that classes were generated for gets a client file.
proof fn lemma_client_generated(
    classes: ClassNames,
    roles: Seq<RoleView>,
    selected_role: Seq<char>,
    browser_roles: Seq<Seq<char>>,
    source: Seq<char>,
    c: int,
)
    requires
        0 <= c < classes.len(),
        find_role(roles, classes[c].0) is Some,
    ensures
        exists|i: int|
            0 <= i < clients_outcome(classes, roles, selected_role, browser_roles, source).0.len()
                && #[trigger] clients_outcome(classes, roles, selected_role, browser_roles, source).0[i].directory.len() == 0
                && clients_outcome(classes, roles, selected_role, browser_roles, source).0[i].file_name
                == classes[c].0 + ".ts"@,
    decreases classes.len(),
{
    let rest = classes.drop_last();
    let files = clients_outcome(rest, roles, selected_role, browser_roles, source).0;
    let (name, imports) = classes.last();
    if c == classes.len() - 1 {
        let role = find_role(roles, name).unwrap();
        let k = choose|k: int| is_first_role(roles, name, k);
        assert(role.name == name);
        let all = files.push(client_file(role, imports, selected_role, browser_roles, source));
        assert(clients_outcome(classes, roles, selected_role, browser_roles, source).0 == all);
        assert(classes[c] == classes.last());
        assert(all[files.len() as int].file_name == name + ".ts"@);
        assert(all[files.len() as int].directory.len() == 0);
    } else {
        assert(rest[c] == classes[c]);
        lemma_client_generated(rest, roles, selected_role, browser_roles, source, c);
        let i = choose|i: int|
            0 <= i < files.len() && #[trigger] files[i].directory.len() == 0 && files[i].file_name
                == rest[c].0 + ".ts"@;
        match find_role(roles, name) {
            Some(role) => {
                let all = files.push(client_file(role, imports, selected_role, browser_roles, source));
                assert(clients_outcome(classes, roles, selected_role, browser_roles, source).0 == all);
                assert(all[i] == files[i]);
                assert(all[i].directory.len() == 0);
            },
            None => {
                assert(clients_outcome(classes, roles, selected_role, browser_roles, source).0 == files);
                assert(files[i].directory.len() == 0);
            },
        }
    }
}

/// A client never treats as socket-enabled a browser role whose client is not
/// generated: each browser role handed to the clients has its `<role>.ts`.
pub proof fn law_browser_roles_have_clients(
    root: SourceDirectory,
    selected_role: Seq<char>,
    roles: Seq<RoleView>,
    name: Seq<char>,
)
    requires
        browser_roles_with_classes(
            roles,
            directory_outcome(root, Seq::empty(), selected_role, roles).classes,
        ).contains(name),
    ensures
        exists|i: int|
            0 <= i < generation(root, selected_role, roles).0.len()
                && #[trigger] generation(root, selected_role, roles).0[i].directory.len() == 0
                && generation(root, selected_role, roles).0[i].file_name == name + ".ts"@,
{
    let level = directory_outcome(root, Seq::empty(), selected_role, roles);
    law_browser_roles(roles, level.classes, name);
    let k = choose|k: int| 0 <= k < roles.len() && roles[k].name == name && roles[k].types.contains("browser"@);
    let c = choose|c: int| 0 <= c < level.classes.len() && level.classes[c].0 == name;
    lemma_first_role_exists(roles, name, k);
    let browser_roles = browser_roles_with_classes(roles, level.classes);
    let source = library_source(find_role(roles, selected_role).unwrap());
    lemma_client_generated(level.classes, roles, selected_role, browser_roles, source, c);
    let clients = clients_outcome(level.classes, roles, selected_role, browser_roles, source).0;
    let i = choose|i: int| 0 <= i < clients.len() && #[trigger] clients[i].directory.len() == 0 && clients[i].file_name == name + ".ts"@;
    let files = generation(root, selected_role, roles).0;
    assert(files == level.files + clients);
    assert(files[level.files.len() + i] == clients[i]);
}

} // verus!
