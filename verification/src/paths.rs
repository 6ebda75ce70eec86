//! Where indexes are kept, and which index belongs to a project.
//!
//! All indexes stand below the user's data directory, in `colgrep/indices`. An
//! index has a directory of its own there, named after its project.

use std::path::PathBuf;

use vstd::prelude::*;
use vstd::utf8::encode_utf8;

use crate::parts::{file_name_of, FilePath, Location, Part, PathParts, Site};
use crate::state::{maybe_str, maybe_text, recorded_model, xxh3_64_of};
use crate::text::{alphanumeric, chars_of, same_text};

verus! {

/// Metadata about a project, stored beside its index.
#[derive(Debug)]
pub struct ProjectMetadata {
    /// Canonical path of the project directory.
    pub project_path: FilePath,
    /// Name of the project.
    pub project_name: String,
}

/// The name of a project: the name of its directory, if it has one.
pub open spec fn project_name_of(p: Seq<Part>) -> Seq<char> {
    match file_name_of(p) {
        Some(name) => name,
        None => "project"@,
    }
}

/// The name of the project in a directory.
fn project_name(project_path: &FilePath) -> (r: String)
    ensures
        r@ == project_name_of(project_path.parts@),
{
    match project_path.parts.file_name() {
        Some(name) => name,
        None => "project".to_owned(),
    }
}

impl ProjectMetadata {
    /// The metadata of the project in a directory.
    pub fn new(project_path: &FilePath) -> (r: ProjectMetadata)
        ensures
            r.project_path.path == project_path.path,
            r.project_path.text@ == project_path.text@,
            r.project_path.parts@ == project_path.parts@,
            r.project_name@ == project_name_of(project_path.parts@),
    {
        ProjectMetadata {
            project_path: project_path.clone(),
            project_name: project_name(project_path),
        }
    }
}

impl Clone for ProjectMetadata {
    fn clone(&self) -> (r: Self)
        ensures
            r.project_path.path == self.project_path.path,
            r.project_path.text@ == self.project_path.text@,
            r.project_path.parts@ == self.project_path.parts@,
            r.project_name@ == self.project_name@,
    {
        ProjectMetadata {
            project_path: self.project_path.clone(),
            project_name: self.project_name.clone(),
        }
    }
}

// ---------------------------------------------------------------------------
// The name of an index directory
// ---------------------------------------------------------------------------

/// The hexadecimal digit of a number below sixteen.
pub open spec fn hex_digit(n: nat) -> char {
    if n < 10 {
        ('0' as u32 + n) as char
    } else {
        ('a' as u32 + (n - 10)) as char
    }
}

/// A number in hexadecimal, without leading zeros.
pub open spec fn hex_text(n: nat) -> Seq<char>
    decreases n,
{
    if n < 16 {
        seq![hex_digit(n)]
    } else {
        hex_text(n / 16).push(hex_digit(n % 16))
    }
}

/// The first eight digits of a hash in hexadecimal; a hash with fewer digits
/// has zeros in front.
pub open spec fn hash_prefix(hash: u64) -> Seq<char> {
    let digits = hex_text(hash as nat);
    if digits.len() < 8 {
        Seq::new((8 - digits.len()) as nat, |i: int| '0') + digits
    } else {
        digits.take(8)
    }
}

/// A name in which every character but letters, digits, `-` and `_` is replaced
/// by `_`.
pub open spec fn sanitized(name: Seq<char>) -> Seq<char> {
    name.map_values(
        |c: char|
            if alphanumeric(c) || c == '-' || c == '_' {
                c
            } else {
                '_'
            },
    )
}

/// The text whose hash tells index directories apart: the path of the project,
/// and the model if one is given.
pub open spec fn hash_input(path_text: Seq<char>, model: Option<Seq<char>>) -> Seq<char> {
    match model {
        Some(m) => path_text + seq![':'] + m,
        None => path_text,
    }
}

/// The name of the index directory of a project, for a model or for none.
pub open spec fn index_dir_name(path: FilePath, model: Option<Seq<char>>) -> Seq<char> {
    sanitized(project_name_of(path.parts@)) + seq!['-'] + hash_prefix(
        xxh3_64_of(encode_utf8(hash_input(path.text@, model))),
    )
}

/// The hexadecimal digit of a number below sixteen.
fn digit(n: u64) -> (r: char)
    requires
        n < 16,
    ensures
        r == hex_digit(n as nat),
{
    if n < 10 {
        ('0' as u8 + n as u8) as char
    } else {
        ('a' as u8 + (n - 10) as u8) as char
    }
}

/// A number in hexadecimal.
fn hex_digits(n: u64) -> (r: Vec<char>)
    ensures
        r@ == hex_text(n as nat),
    decreases n,
{
    if n < 16 {
        let mut r: Vec<char> = Vec::new();
        r.push(digit(n));
        assert(r@ =~= seq![hex_digit(n as nat)]);
        r
    } else {
        let mut r: Vec<char> = hex_digits(n / 16);
        r.push(digit(n % 16));
        r
    }
}

/// Appends the first eight digits of a hash to a text.
fn push_hash_prefix(text: &mut String, hash: u64)
    ensures
        final(text)@ == old(text)@ + hash_prefix(hash),
{
    let digits: Vec<char> = hex_digits(hash);
    let ghost start = text@;
    let mut written: usize = 0;
    let ghost prefix = hash_prefix(hash);
    assert(prefix.len() == 8);
    assert(start =~= start + prefix.take(0));
    while written < 8
        invariant
            written <= 8,
            digits@ == hex_text(hash as nat),
            prefix == hash_prefix(hash),
            prefix.len() == 8,
            text@ == start + prefix.take(written as int),
        decreases 8 - written,
    {
        if digits.len() < 8 {
            let zeros: usize = 8 - digits.len();
            if written < zeros {
                text.push('0');
            } else {
                text.push(digits[written - zeros]);
            }
        } else {
            text.push(digits[written]);
        }
        assert(prefix.take(written + 1) =~= prefix.take(written as int).push(
            prefix[written as int],
        ));
        assert(text@ =~= start + prefix.take(written + 1));
        written = written + 1;
    }
    assert(prefix.take(8) =~= prefix);
}

/// The name of the index directory of a project. With a model, the hash in the
/// name is that of the path and the model, so that each model has a directory
/// of its own.
pub fn compute_index_dir_name(project_path: &FilePath, model: Option<&str>) -> (r: String)
    ensures
        r@ == index_dir_name(*project_path, maybe_str(model)),
{
    let mut input: String = project_path.text.clone();
    if let Some(m) = model {
        input.push(':');
        input.append(m);
        assert(input@ =~= hash_input(project_path.text@, Some(m@)));
    }
    let hash: u64 = xxhash_rust::xxh3::xxh3_64(input.as_str().as_bytes());
    let name: Vec<char> = chars_of(project_name(project_path).as_str());
    let ghost clean = sanitized(name@);
    let mut r: String = String::new();
    let mut i: usize = 0;
    assert(clean.take(0) =~= Seq::<char>::empty());
    while i < name.len()
        invariant
            i <= name.len(),
            clean == sanitized(name@),
            r@ == clean.take(i as int),
        decreases name.len() - i,
    {
        let c: char = name[i];
        if c.is_alphanumeric() || c == '-' || c == '_' {
            r.push(c);
        } else {
            r.push('_');
        }
        assert(clean.take(i + 1) =~= clean.take(i as int).push(clean[i as int]));
        i = i + 1;
    }
    assert(clean.take(clean.len() as int) =~= clean);
    r.push('-');
    assert(r@ =~= clean + seq!['-']);
    push_hash_prefix(&mut r, hash);
    r
}

/// The hash part of a name is always eight hexadecimal digits.
pub proof fn law_hash_prefix_is_eight_digits(hash: u64)
    ensures
        hash_prefix(hash).len() == 8,
        forall|i: int|
            0 <= i < 8 ==> ('0' <= #[trigger] hash_prefix(hash)[i] && hash_prefix(hash)[i] <= '9')
                || ('a' <= hash_prefix(hash)[i] && hash_prefix(hash)[i] <= 'f'),
{
    lemma_hex_text(hash as nat);
}

proof fn lemma_hex_text(n: nat)
    ensures
        hex_text(n).len() > 0,
        forall|i: int|
            0 <= i < hex_text(n).len() ==> ('0' <= #[trigger] hex_text(n)[i] && hex_text(n)[i]
                <= '9') || ('a' <= hex_text(n)[i] && hex_text(n)[i] <= 'f'),
    decreases n,
{
    if n >= 16 {
        lemma_hex_text(n / 16);
    }
}

/// The name of an index directory is the name of the project, a dash and eight
/// digits, and holds no character but letters, digits, `-` and `_`.
pub proof fn law_index_dir_name_is_plain(path: FilePath, model: Option<Seq<char>>)
    ensures
        index_dir_name(path, model).len() == project_name_of(path.parts@).len() + 9,
        sanitized(project_name_of(path.parts@)).push('-').is_prefix_of(
            index_dir_name(path, model),
        ),
        forall|i: int|
            0 <= i < index_dir_name(path, model).len() ==> alphanumeric(
                #[trigger] index_dir_name(path, model)[i],
            ) || index_dir_name(path, model)[i] == '-' || index_dir_name(path, model)[i] == '_',
{
    let hash = xxh3_64_of(encode_utf8(hash_input(path.text@, model)));
    law_hash_prefix_is_eight_digits(hash);
    let clean = sanitized(project_name_of(path.parts@));
    let name = index_dir_name(path, model);
    assert(name =~= clean.push('-') + hash_prefix(hash));
    assert(name.subrange(0, clean.len() as int + 1) =~= clean.push('-'));
    assert forall|i: int| 0 <= i < name.len() implies alphanumeric(#[trigger] name[i]) || name[i]
        == '-' || name[i] == '_' by {
        if i < clean.len() {
            assert(name[i] == clean[i]);
        } else if i > clean.len() {
            assert(name[i] == hash_prefix(hash)[i - clean.len() - 1]);
        }
    }
}

/// Models share an index directory of a project only where the hashes begin
/// alike, and never because the hashed texts are the same: a text with a model
/// differs from the text without one and from the text with any other model.
pub proof fn law_models_have_their_own_hash(
    path: FilePath,
    a: Option<Seq<char>>,
    b: Option<Seq<char>>,
)
    requires
        a != b,
    ensures
        hash_input(path.text@, a) != hash_input(path.text@, b),
        index_dir_name(path, a) == index_dir_name(path, b) <==> hash_prefix(
            xxh3_64_of(encode_utf8(hash_input(path.text@, a))),
        ) == hash_prefix(xxh3_64_of(encode_utf8(hash_input(path.text@, b)))),
{
    let t = path.text@;
    let ia = hash_input(t, a);
    let ib = hash_input(t, b);
    if ia == ib {
        match (a, b) {
            (Some(x), Some(y)) => {
                assert(ia.len() == t.len() + 1 + x.len());
                assert(ib.len() == t.len() + 1 + y.len());
                assert forall|i: int| 0 <= i < x.len() implies x[i] == y[i] by {
                    assert(ia[t.len() + 1 + i] == x[i]);
                    assert(ib[t.len() + 1 + i] == y[i]);
                }
                assert(x =~= y);
            },
            (Some(x), None) => {
                assert(ia.len() > ib.len());
            },
            (None, Some(y)) => {
                assert(ib.len() > ia.len());
            },
            (None, None) => {},
        }
    }
    let front = sanitized(project_name_of(path.parts@)) + seq!['-'];
    let ha = hash_prefix(xxh3_64_of(encode_utf8(ia)));
    let hb = hash_prefix(xxh3_64_of(encode_utf8(ib)));
    law_hash_prefix_is_eight_digits(xxh3_64_of(encode_utf8(ia)));
    law_hash_prefix_is_eight_digits(xxh3_64_of(encode_utf8(ib)));
    if front + ha == front + hb {
        assert forall|i: int| 0 <= i < 8 implies ha[i] == hb[i] by {
            assert((front + ha)[front.len() + i] == ha[i]);
            assert((front + hb)[front.len() + i] == hb[i]);
        }
        assert(ha =~= hb);
    }
}

// ---------------------------------------------------------------------------
// Index directories
// ---------------------------------------------------------------------------

/// Why a path cannot be given.
#[derive(Clone, Copy, Debug, PartialEq, Eq, Structural)]
pub enum PathError {
    /// The user has no data directory.
    NoDataDir,
}

impl PathError {
    /// What the user is told.
    pub fn message(&self) -> (r: String)
        ensures
            r@ == "Could not determine data directory"@,
    {
        "Could not determine data directory".to_owned()
    }
}

/// The directory of all indexes, below a data directory.
pub open spec fn indices_dir(data_dir: PathBuf) -> Site {
    Site { base: data_dir, below: Seq::empty() }.child("colgrep"@).child("indices"@)
}

/// The index directory of a project, in the directory of all indexes.
pub open spec fn index_dir_of(
    indices: Site,
    path: FilePath,
    model: Option<Seq<char>>,
) -> Site {
    indices.child(index_dir_name(path, model))
}

/// Whether a directory is the index directory of a project in the directory of
/// all indexes below some data directory.
pub open spec fn is_index_dir(dir: Site, path: FilePath, model: Option<Seq<char>>) -> bool {
    exists|data_dir: PathBuf| dir == index_dir_of(#[trigger] indices_dir(data_dir), path, model)
}

/// `dirs::data_dir`: the data directory of the user, from the environment. There
/// may be none; which one it is, the library cannot say.
pub assume_specification[ dirs::data_dir ]() -> (r: Option<PathBuf>);

/// The directory of all indexes, given the user's data directory.
pub fn indices_dir_from(data_dir: Option<PathBuf>) -> (r: Result<Location, PathError>)
    ensures
        data_dir matches Some(d) ==> (r matches Ok(dir) && dir@ == indices_dir(d)),
        data_dir is None ==> r == Err::<Location, PathError>(PathError::NoDataDir),
{
    match data_dir {
        Some(d) => Ok(Location::at(d).join_name("colgrep").join_name("indices")),
        None => Err(PathError::NoDataDir),
    }
}

/// The directory of all indexes. There is an error only where the user has no
/// data directory.
pub fn get_colgrep_data_dir() -> (r: Result<Location, PathError>)
    ensures
        r matches Ok(dir) ==> exists|data_dir: PathBuf| dir@ == #[trigger] indices_dir(data_dir),
        r matches Err(e) ==> e == PathError::NoDataDir,
{
    indices_dir_from(dirs::data_dir())
}

/// The index directory of a project, in a given directory of all indexes.
pub fn index_dir_in(indices: &Location, project_path: &FilePath, model: Option<&str>) -> (r:
    Location)
    ensures
        r@ == index_dir_of(indices@, *project_path, maybe_str(model)),
{
    let name: String = compute_index_dir_name(project_path, model);
    indices.join_name(name.as_str())
}

/// The index directory of a project, given the directory of all indexes or why
/// there is none.
pub fn index_dir_from(
    indices: Result<Location, PathError>,
    project_path: &FilePath,
    model: Option<&str>,
) -> (r: Result<Location, PathError>)
    ensures
        indices matches Ok(all) ==> (r matches Ok(dir) && dir@ == index_dir_of(
            all@,
            *project_path,
            maybe_str(model),
        )),
        indices matches Err(e) ==> r == Err::<Location, PathError>(e),
{
    match indices {
        Ok(all) => Ok(index_dir_in(&all, project_path, model)),
        Err(e) => Err(e),
    }
}

/// The index directory of a project, for no model in particular.
pub fn get_index_dir_for_project(project_path: &FilePath) -> (r: Result<Location, PathError>)
    ensures
        r matches Ok(dir) ==> is_index_dir(dir@, *project_path, None),
        r matches Err(e) ==> e == PathError::NoDataDir,
{
    index_dir_from(get_colgrep_data_dir(), project_path, None)
}

/// The index directory of a project for a model.
pub fn get_index_dir_for_project_and_model(project_path: &FilePath, model: &str) -> (r: Result<
    Location,
    PathError,
>)
    ensures
        r matches Ok(dir) ==> is_index_dir(dir@, *project_path, Some(model@)),
        r matches Err(e) ==> e == PathError::NoDataDir,
{
    index_dir_from(get_colgrep_data_dir(), project_path, Some(model))
}

/// The file with the state of an index.
pub open spec fn state_path_of(index_dir: Site) -> Site {
    index_dir.child("state.json"@)
}

/// The file with the metadata of the project of an index.
pub open spec fn project_path_of(index_dir: Site) -> Site {
    index_dir.child("project.json"@)
}

/// The directory with the vectors of an index.
pub open spec fn vector_index_path_of(index_dir: Site) -> Site {
    index_dir.child("index"@)
}

/// The file by whose presence an index exists.
pub open spec fn metadata_path_of(index_dir: Site) -> Site {
    vector_index_path_of(index_dir).child("metadata.json"@)
}

/// The lock file of an index.
pub open spec fn lock_path_of(index_dir: Site) -> Site {
    index_dir.child(".lock"@)
}

/// The file with the state of an index.
pub fn get_state_path(index_dir: &Location) -> (r: Location)
    ensures
        r@ == state_path_of(index_dir@),
{
    index_dir.join_name("state.json")
}

/// The file with the metadata of the project of an index.
pub fn get_project_path(index_dir: &Location) -> (r: Location)
    ensures
        r@ == project_path_of(index_dir@),
{
    index_dir.join_name("project.json")
}

/// The directory with the vectors of an index.
pub fn get_vector_index_path(index_dir: &Location) -> (r: Location)
    ensures
        r@ == vector_index_path_of(index_dir@),
{
    index_dir.join_name("index")
}

/// The file by whose presence an index exists.
pub fn get_metadata_path(index_dir: &Location) -> (r: Location)
    ensures
        r@ == metadata_path_of(index_dir@),
{
    get_vector_index_path(index_dir).join_name("metadata.json")
}

/// The lock file of an index.
pub fn get_lock_path(index_dir: &Location) -> (r: Location)
    ensures
        r@ == lock_path_of(index_dir@),
{
    index_dir.join_name(".lock")
}

/// The state, the project metadata, the vectors and the lock of an index stand
/// in its directory, and no two of them in the same place.
pub proof fn law_index_files_are_apart(index_dir: Site)
    ensures
        state_path_of(index_dir) != project_path_of(index_dir),
        state_path_of(index_dir) != vector_index_path_of(index_dir),
        state_path_of(index_dir) != lock_path_of(index_dir),
        project_path_of(index_dir) != vector_index_path_of(index_dir),
        project_path_of(index_dir) != lock_path_of(index_dir),
        vector_index_path_of(index_dir) != lock_path_of(index_dir),
{
    reveal_strlit("state.json");
    reveal_strlit("project.json");
    reveal_strlit("index");
    reveal_strlit(".lock");
    assert(state_path_of(index_dir).below.last().len() == 10);
    assert(project_path_of(index_dir).below.last().len() == 12);
    assert(vector_index_path_of(index_dir).below.last()[0] == 'i');
    assert(vector_index_path_of(index_dir).below.last().len() == 5);
    assert(lock_path_of(index_dir).below.last()[0] == '.');
    assert(lock_path_of(index_dir).below.last().len() == 5);
}

// ---------------------------------------------------------------------------
// Finding the index of a project
// ---------------------------------------------------------------------------

/// The index that serves a project, in a given directory of all indexes: the
/// one for the model if it is present, or else, where a model is asked for, the
/// one for no model in particular if that is present.
pub open spec fn serving_index(
    indices: Site,
    path: FilePath,
    model: Option<Seq<char>>,
    present: bool,
    legacy_present: bool,
) -> Option<Site> {
    if present {
        Some(index_dir_of(indices, path, model))
    } else if model is Some && legacy_present {
        Some(index_dir_of(indices, path, None))
    } else {
        None
    }
}

/// The contents of a path that may be missing.
pub open spec fn maybe_site(p: Option<Location>) -> Option<Site> {
    match p {
        Some(parts) => Some(parts@),
        None => None,
    }
}

/// The index that serves a project, in a given directory of all indexes.
/// `present` says whether the index for the model exists, `legacy_present`
/// whether the index for no model in particular does.
pub fn find_index_in(
    indices: &Location,
    project_path: &FilePath,
    model: Option<&str>,
    present: bool,
    legacy_present: bool,
) -> (r: Option<Location>)
    ensures
        maybe_site(r) == serving_index(
            indices@,
            *project_path,
            maybe_str(model),
            present,
            legacy_present,
        ),
{
    if present {
        return Some(index_dir_in(indices, project_path, model));
    }
    if model.is_some() && legacy_present {
        return Some(index_dir_in(indices, project_path, None));
    }
    None
}

/// The index that serves a project, given the directory of all indexes or why
/// there is none.
pub fn find_index_from(
    indices: Result<Location, PathError>,
    project_path: &FilePath,
    model: Option<&str>,
    present: bool,
    legacy_present: bool,
) -> (r: Result<Option<Location>, PathError>)
    ensures
        indices matches Ok(all) ==> (r matches Ok(found) && maybe_site(found) == serving_index(
            all@,
            *project_path,
            maybe_str(model),
            present,
            legacy_present,
        )),
        indices matches Err(e) ==> r == Err::<Option<Location>, PathError>(e),
{
    match indices {
        Ok(all) => Ok(find_index_in(&all, project_path, model, present, legacy_present)),
        Err(e) => Err(e),
    }
}

/// The index that serves a project, if there is one.
pub fn find_index_for_project_impl(
    project_path: &FilePath,
    model: Option<&str>,
    present: bool,
    legacy_present: bool,
) -> (r: Result<Option<Location>, PathError>)
    ensures
        r matches Ok(found) ==> exists|data_dir: PathBuf|
            maybe_site(found) == serving_index(
                #[trigger] indices_dir(data_dir),
                *project_path,
                maybe_str(model),
                present,
                legacy_present,
            ),
        r matches Err(e) ==> e == PathError::NoDataDir,
{
    find_index_from(get_colgrep_data_dir(), project_path, model, present, legacy_present)
}

/// The index of a project for no model in particular, if it exists.
pub fn find_index_for_project(project_path: &FilePath, present: bool) -> (r: Result<
    Option<Location>,
    PathError,
>)
    ensures
        r matches Ok(found) ==> found is Some == present,
        r matches Ok(Some(dir)) ==> is_index_dir(dir@, *project_path, None),
        r matches Err(e) ==> e == PathError::NoDataDir,
{
    find_index_for_project_impl(project_path, None, present, false)
}

/// The index of a project for a model, if it exists.
pub fn find_index_for_project_and_model(project_path: &FilePath, model: &str, present: bool) -> (r:
    Result<Option<Location>, PathError>)
    ensures
        r matches Ok(found) ==> found is Some == present,
        r matches Ok(Some(dir)) ==> is_index_dir(dir@, *project_path, Some(model@)),
        r matches Err(e) ==> e == PathError::NoDataDir,
{
    find_index_for_project_impl(project_path, Some(model), present, false)
}

/// Whether an index exists for a project and a model, given the directory of all
/// indexes or why there is none.
pub fn index_exists_from(
    indices: Result<Location, PathError>,
    project_path: &FilePath,
    model: Option<&str>,
    present: bool,
) -> (r: bool)
    ensures
        r == (indices is Ok && present),
{
    match find_index_from(indices, project_path, model, present, false) {
        Ok(Some(_)) => true,
        _ => false,
    }
}

/// Whether an index exists for a project. Without a data directory there is
/// none.
pub fn index_exists(project_path: &FilePath, present: bool) -> (r: bool)
    ensures
        r ==> present,
{
    index_exists_from(get_colgrep_data_dir(), project_path, None, present)
}

/// Whether an index exists for a project and a model. Without a data directory
/// there is none.
pub fn index_exists_for_model(project_path: &FilePath, model: &str, present: bool) -> (r: bool)
    ensures
        r ==> present,
{
    index_exists_from(get_colgrep_data_dir(), project_path, Some(model), present)
}

// ---------------------------------------------------------------------------
// Indexes of parent directories
// ---------------------------------------------------------------------------

/// An index of a parent directory.
#[derive(Debug)]
pub struct ParentIndexInfo {
    /// Directory of the index.
    pub index_dir: Location,
    /// Root of the project that it indexes.
    pub project_path: FilePath,
    /// Way from the root of the project to the directory that is searched.
    pub relative_subdir: PathParts,
}

impl Clone for ParentIndexInfo {
    fn clone(&self) -> (r: Self)
        ensures
            r.index_dir@ == self.index_dir@,
            r.project_path.path == self.project_path.path,
            r.project_path.text@ == self.project_path.text@,
            r.project_path.parts@ == self.project_path.parts@,
            r.relative_subdir@ == self.relative_subdir@,
    {
        ParentIndexInfo {
            index_dir: self.index_dir.clone(),
            project_path: self.project_path.clone(),
            relative_subdir: self.relative_subdir.clone(),
        }
    }
}

/// What stands in a directory among the indexes.
pub struct IndexEntry {
    /// The directory.
    pub index_dir: Location,
    /// The project metadata, if it can be read.
    pub metadata: Option<ProjectMetadata>,
    /// The model that the state names, if the state can be read.
    pub model_id: Option<String>,
}

/// The path of the project of an entry with metadata.
pub open spec fn entry_project(e: IndexEntry) -> Seq<Part> {
    e.metadata->0.project_path.parts@
}

/// Whether an entry is the index of a parent directory of a path: of a
/// directory, not the path itself, whose components the path starts with.
pub open spec fn is_parent_entry(search_path: Seq<Part>, e: IndexEntry) -> bool {
    &&& e.metadata is Some
    &&& entry_project(e).len() > 0
    &&& entry_project(e) != search_path
    &&& entry_project(e).is_prefix_of(search_path)
}

/// Whether an entry fits a model: it records that model, or no model is asked
/// for.
pub open spec fn fits_model(model: Option<Seq<char>>, e: IndexEntry) -> bool {
    model matches Some(m) ==> recorded_model(maybe_text(e.model_id)) == Some(m)
}

/// Whether an entry is, among those that are parents and fit the model or not
/// as it does, the first of the deepest.
pub open spec fn is_deepest(
    search_path: Seq<Part>,
    model: Option<Seq<char>>,
    entries: Seq<IndexEntry>,
    i: int,
) -> bool {
    &&& 0 <= i < entries.len()
    &&& is_parent_entry(search_path, entries[i])
    &&& forall|j: int|
        0 <= j < entries.len() && is_parent_entry(search_path, #[trigger] entries[j]) && fits_model(
            model,
            entries[j],
        ) == fits_model(model, entries[i]) ==> entry_project(entries[j]).len() < entry_project(
            entries[i],
        ).len() || (entry_project(entries[j]).len() == entry_project(entries[i]).len() && i <= j)
}

/// Whether an entry is the parent index for a path: the first of the deepest
/// that fit the model, or, where none fits, the first of the deepest.
pub open spec fn is_parent_index(
    search_path: Seq<Part>,
    model: Option<Seq<char>>,
    entries: Seq<IndexEntry>,
    i: int,
) -> bool {
    &&& is_deepest(search_path, model, entries, i)
    &&& fits_model(model, entries[i]) || forall|j: int|
        0 <= j < entries.len() && is_parent_entry(search_path, #[trigger] entries[j])
            ==> !fits_model(model, entries[j])
}

/// Whether an entry fits a model.
fn entry_fits_model(model: Option<&str>, e: &IndexEntry) -> (r: bool)
    ensures
        r == fits_model(maybe_str(model), *e),
{
    match model {
        None => true,
        Some(m) => match &e.model_id {
            None => false,
            Some(id) => !id.as_str().is_empty() && same_text(m, id.as_str()),
        },
    }
}

/// The depth of the project of an entry that is a parent of a path.
fn parent_depth(search_path: &PathParts, e: &IndexEntry) -> (r: Option<usize>)
    ensures
        r is Some == is_parent_entry(search_path@, *e),
        r matches Some(depth) ==> depth == entry_project(*e).len() && depth > 0,
{
    match &e.metadata {
        None => None,
        Some(meta) => {
            let depth: usize = meta.project_path.parts.depth();
            if depth > 0 && !search_path.is_same(&meta.project_path.parts)
                && search_path.starts_with(&meta.project_path.parts) {
                Some(depth)
            } else {
                None
            }
        },
    }
}

/// The first of the deepest entries that are parents of a path and fit a model,
/// or, if `fitting` is false, that do not fit it.
fn deepest_parent(
    search_path: &PathParts,
    model: Option<&str>,
    entries: &Vec<IndexEntry>,
    fitting: bool,
) -> (r: Option<usize>)
    ensures
        r matches Some(i) ==> is_deepest(search_path@, maybe_str(model), entries@, i as int)
            && fits_model(maybe_str(model), entries@[i as int]) == fitting,
        r is None ==> forall|j: int|
            0 <= j < entries@.len() && is_parent_entry(search_path@, #[trigger] entries@[j])
                ==> fits_model(maybe_str(model), entries@[j]) != fitting,
{
    let mut best: Option<usize> = None;
    let mut best_depth: usize = 0;
    let mut k: usize = 0;
    while k < entries.len()
        invariant
            k <= entries.len(),
            best is None ==> best_depth == 0,
            best matches Some(i) ==> {
                &&& i < k
                &&& is_parent_entry(search_path@, entries@[i as int])
                &&& fits_model(maybe_str(model), entries@[i as int]) == fitting
                &&& best_depth == entry_project(entries@[i as int]).len()
            },
            forall|j: int|
                0 <= j < k && is_parent_entry(search_path@, #[trigger] entries@[j]) && fits_model(
                    maybe_str(model),
                    entries@[j],
                ) == fitting ==> best is Some && (entry_project(entries@[j]).len() < best_depth || (
                entry_project(entries@[j]).len() == best_depth && best->0 <= j)),
        decreases entries.len() - k,
    {
        if let Some(depth) = parent_depth(search_path, &entries[k]) {
            if entry_fits_model(model, &entries[k]) == fitting && depth > best_depth {
                best = Some(k);
                best_depth = depth;
            }
        }
        k = k + 1;
    }
    best
}

/// The index of the closest parent directory of a path that is itself indexed,
/// given what stands among the indexes. With a model, an index that was built
/// with it is preferred at any depth.
pub fn find_parent_index(
    search_path: &PathParts,
    model: Option<&str>,
    entries: &Vec<IndexEntry>,
) -> (r: Option<ParentIndexInfo>)
    ensures
        r matches Some(info) ==> exists|i: int| #[trigger]
            is_parent_index(search_path@, maybe_str(model), entries@, i) && info.index_dir@
                == entries@[i].index_dir@ && info.project_path.parts@ == entry_project(entries@[i])
                && info.project_path.text@ == entries@[i].metadata->0.project_path.text@
                && info.project_path.path == entries@[i].metadata->0.project_path.path,
        r matches Some(info) ==> info.project_path.parts@ + info.relative_subdir@ == search_path@
            && info.relative_subdir@.len() > 0,
        r is None <==> forall|j: int|
            0 <= j < entries@.len() ==> !is_parent_entry(search_path@, #[trigger] entries@[j]),
        r matches Some(info) ==> forall|j: int|
            0 <= j < entries@.len() && (match (#[trigger] entries@[j]).metadata {
                Some(meta) => meta.project_path.parts@.is_prefix_of(search_path@)
                    && meta.project_path.parts@ != search_path@,
                None => false,
            }) && (match (model, entries@[j].model_id) {
                (Some(m), Some(id)) => id@.len() > 0 && id@ == m@,
                (Some(_), None) => false,
                (None, _) => true,
            }) ==> entries@[j].metadata->0.project_path.parts@.len()
                <= info.project_path.parts@.len(),
{
    let chosen: Option<usize> = match deepest_parent(search_path, model, entries, true) {
        Some(i) => Some(i),
        None => deepest_parent(search_path, model, entries, false),
    };
    match chosen {
        None => None,
        Some(i) => {
            assert(is_parent_index(search_path@, maybe_str(model), entries@, i as int));
            proof {
                assert forall|j: int|
                    0 <= j < entries@.len() && (match (#[trigger] entries@[j]).metadata {
                        Some(meta) => meta.project_path.parts@.is_prefix_of(search_path@)
                            && meta.project_path.parts@ != search_path@,
                        None => false,
                    }) && (match (model, entries@[j].model_id) {
                        (Some(m), Some(id)) => id@.len() > 0 && id@ == m@,
                        (Some(_), None) => false,
                        (None, _) => true,
                    }) implies entries@[j].metadata->0.project_path.parts@.len() <= entry_project(
                    entries@[i as int],
                ).len() by {
                    if entry_project(entries@[j]).len() > 0 {
                        law_parent_index_is_closest(
                            search_path@,
                            maybe_str(model),
                            entries@,
                            i as int,
                            j,
                        );
                    }
                }
            }
            match &entries[i].metadata {
                None => None,
                Some(meta) => {
                    match search_path.strip_prefix(&meta.project_path.parts) {
                        None => None,
                        Some(relative) => {
                            proof {
                                if relative@.len() == 0 {
                                    assert(meta.project_path.parts@ + relative@
                                        =~= meta.project_path.parts@);
                                }
                            }
                            Some(
                                ParentIndexInfo {
                                    index_dir: entries[i].index_dir.clone(),
                                    project_path: meta.project_path.clone(),
                                    relative_subdir: relative,
                                },
                            )
                        },
                    }
                },
            }
        },
    }
}

/// At most one entry is the parent index for a path.
pub proof fn law_parent_index_is_unique(
    search_path: Seq<Part>,
    model: Option<Seq<char>>,
    entries: Seq<IndexEntry>,
    i: int,
    j: int,
)
    requires
        is_parent_index(search_path, model, entries, i),
        is_parent_index(search_path, model, entries, j),
    ensures
        i == j,
{
    assert(is_parent_entry(search_path, entries[i]));
    assert(is_parent_entry(search_path, entries[j]));
}

// ---------------------------------------------------------------------------
// Waiting for the lock of an index
// ---------------------------------------------------------------------------

/// For how many milliseconds the lock of an index is waited for.
pub const LOCK_TIMEOUT_MS: u64 = 5000;

/// How many milliseconds pass between two attempts.
pub const LOCK_RETRY_MS: u64 = 500;

/// What follows an attempt to lock an index.
#[derive(Clone, Copy, Debug, PartialEq, Eq, Structural)]
pub enum LockStep {
    /// The lock is held.
    Held,
    /// Try again after a pause.
    Retry,
    /// Give up.
    TimedOut,
}

/// What the user is told where the lock of an index is not to be had.
pub fn lock_timeout_message() -> (r: String)
    ensures
        r@
            == "Timed out waiting for index lock after 5 seconds. Another colgrep instance may be updating this index."@,
{
    "Timed out waiting for index lock after 5 seconds. Another colgrep instance may be updating this index.".to_owned()
}

/// Decides what follows an attempt to lock an index, given whether it succeeded
/// and the whole milliseconds that have passed since the first attempt.
pub fn lock_step(locked: bool, elapsed_ms: u64) -> (r: LockStep)
    ensures
        r == LockStep::Held <==> locked,
        r == LockStep::Retry <==> !locked && elapsed_ms < LOCK_TIMEOUT_MS,
        r == LockStep::TimedOut <==> !locked && elapsed_ms >= LOCK_TIMEOUT_MS,
{
    if locked {
        LockStep::Held
    } else if elapsed_ms < LOCK_TIMEOUT_MS {
        LockStep::Retry
    } else {
        LockStep::TimedOut
    }
}

// ---------------------------------------------------------------------------
// Laws of names and places
// ---------------------------------------------------------------------------

/// The parent index is that of a directory above the search path. Among all
/// indexes of such directories, none that records the model is deeper than it;
/// and where it does not record the model itself, none does, and none at all is
/// deeper. Without a model, any index will do.
pub proof fn law_parent_index_is_closest(
    search_path: Seq<Part>,
    model: Option<Seq<char>>,
    entries: Seq<IndexEntry>,
    i: int,
    j: int,
)
    requires
        is_parent_index(search_path, model, entries, i),
        0 <= j < entries.len(),
        entries[j].metadata matches Some(meta) && meta.project_path.parts@.len() > 0
            && meta.project_path.parts@ != search_path && meta.project_path.parts@.is_prefix_of(
            search_path,
        ),
    ensures
        0 <= i < entries.len(),
        entries[i].metadata matches Some(meta) && meta.project_path.parts@ != search_path
            && meta.project_path.parts@.is_prefix_of(search_path),
        model is None ==> entries[j].metadata->0.project_path.parts@.len()
            <= entries[i].metadata->0.project_path.parts@.len(),
        model matches Some(m) ==> (entries[j].model_id matches Some(id) && id@.len() > 0 && id@ == m)
            ==> (entries[i].model_id matches Some(id) && id@ == m)
            && entries[j].metadata->0.project_path.parts@.len()
            <= entries[i].metadata->0.project_path.parts@.len(),
        model matches Some(m) ==> !(entries[i].model_id matches Some(id) && id@.len() > 0 && id@
            == m) ==> entries[j].metadata->0.project_path.parts@.len()
            <= entries[i].metadata->0.project_path.parts@.len(),
{
    assert(is_parent_entry(search_path, entries[j]));
    if model is Some {
        let m = model->0;
        assert(fits_model(model, entries[j]) <==> (entries[j].model_id matches Some(id) && id@.len()
            > 0 && id@ == m));
        assert(fits_model(model, entries[i]) <==> (entries[i].model_id matches Some(id) && id@.len()
            > 0 && id@ == m));
    }
}

/// A project is named after its directory, and `project` where that has no name.
pub proof fn law_project_name(p: Seq<Part>, last: Part)
    ensures
        project_name_of(Seq::empty()) == "project"@,
        last matches Part::Normal(name) ==> project_name_of(p.push(last)) == name.text,
        !(last is Normal) ==> project_name_of(p.push(last)) == "project"@,
{
    assert(p.push(last).last() == last);
}

/// The name of an index directory is as long as that of the project and nine
/// characters more: letters, digits, `-` and `_` of the project's name as they
/// are, `_` for anything else, a `-`, and the first digits of the hash of the
/// path, with the model behind a colon if there is one.
pub proof fn law_index_dir_name(path: FilePath, model: Option<Seq<char>>)
    ensures
        ({
            let name = project_name_of(path.parts@);
            let dir = index_dir_name(path, model);
            &&& dir.len() == name.len() + 9
            &&& forall|i: int|
                0 <= i < name.len() ==> #[trigger] dir[i] == if alphanumeric(name[i]) || name[i]
                    == '-' || name[i] == '_' {
                    name[i]
                } else {
                    '_'
                }
            &&& dir[name.len() as int] == '-'
            &&& dir.skip(name.len() as int + 1) == hash_prefix(
                xxh3_64_of(
                    encode_utf8(
                        match model {
                            Some(m) => path.text@ + seq![':'] + m,
                            None => path.text@,
                        },
                    ),
                ),
            )
        }),
{
    let name = project_name_of(path.parts@);
    let hash = xxh3_64_of(encode_utf8(hash_input(path.text@, model)));
    law_hash_prefix_is_eight_digits(hash);
    let dir = index_dir_name(path, model);
    assert(dir.skip(name.len() as int + 1) =~= hash_prefix(hash));
}

/// Hexadecimal digits: those below ten are figures, the others the letters from
/// `a` on, and one more digit behind a number makes it sixteen times as large.
pub proof fn law_hex_text(n: nat, digit: nat)
    requires
        digit < 16,
    ensures
        digit < 10 ==> hex_digit(digit) as int == '0' as int + digit,
        digit >= 10 ==> hex_digit(digit) as int == 'a' as int + (digit - 10),
        hex_text(digit) == seq![hex_digit(digit)],
        n > 0 ==> hex_text(n * 16 + digit) == hex_text(n).push(hex_digit(digit)),
{
    assert((n * 16 + digit) / 16 == n);
    assert((n * 16 + digit) % 16 == digit);
}

/// The first digits of a hash are eight: the first of all its digits, or all of
/// them behind zeros.
pub proof fn law_hash_prefix(hash: u64)
    ensures
        hash_prefix(hash).len() == 8,
        hex_text(hash as nat).len() >= 8 ==> hash_prefix(hash).is_prefix_of(hex_text(hash as nat)),
        hex_text(hash as nat).len() < 8 ==> {
            let zeros = 8 - hex_text(hash as nat).len();
            &&& hash_prefix(hash).skip(zeros) == hex_text(hash as nat)
            &&& forall|i: int| 0 <= i < zeros ==> #[trigger] hash_prefix(hash)[i] == '0'
        },
{
    let digits = hex_text(hash as nat);
    if digits.len() < 8 {
        assert(hash_prefix(hash).skip(8 - digits.len()) =~= digits);
    }
}

/// Where an index and its files stand below the data directory.
pub proof fn law_places_of_an_index(data_dir: PathBuf, path: FilePath, model: Option<Seq<char>>)
    ensures
        ({
            let dir = index_dir_of(indices_dir(data_dir), path, model);
            &&& dir.base == data_dir
            &&& dir.below == seq!["colgrep"@, "indices"@, index_dir_name(path, model)]
            &&& state_path_of(dir).base == data_dir
            &&& state_path_of(dir).below == dir.below.push("state.json"@)
            &&& project_path_of(dir).base == data_dir
            &&& project_path_of(dir).below == dir.below.push("project.json"@)
            &&& lock_path_of(dir).base == data_dir
            &&& lock_path_of(dir).below == dir.below.push(".lock"@)
            &&& vector_index_path_of(dir).base == data_dir
            &&& vector_index_path_of(dir).below == dir.below.push("index"@)
            &&& metadata_path_of(dir).base == data_dir
            &&& metadata_path_of(dir).below == dir.below.push("index"@).push("metadata.json"@)
        }),
{
    let dir = index_dir_of(indices_dir(data_dir), path, model);
    assert(dir.below =~= seq!["colgrep"@, "indices"@, index_dir_name(path, model)]);
}

/// Which index serves a project: the one for the model if it is there; the one
/// for no model in its place only if a model was asked for; and else none.
pub proof fn law_serving_index(indices: Site, path: FilePath, model: Seq<char>, legacy: bool)
    ensures
        serving_index(indices, path, Some(model), true, legacy) == Some(
            index_dir_of(indices, path, Some(model)),
        ),
        serving_index(indices, path, None, true, legacy) == Some(index_dir_of(indices, path, None)),
        serving_index(indices, path, Some(model), false, true) == Some(
            index_dir_of(indices, path, None),
        ),
        serving_index(indices, path, Some(model), false, false) is None,
        serving_index(indices, path, None, false, legacy) is None,
{
}

} // verus!
