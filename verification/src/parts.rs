//! Paths by their components.

use std::path::{PathBuf, Prefix};

use vstd::prelude::*;
use vstd::utf8::encode_utf8;

use crate::text::{same_text, texts};

verus! {

/// Whether two lists of bytes are the same.
fn same_bytes(a: &Vec<u8>, b: &Vec<u8>) -> (r: bool)
    ensures
        r == (a@ == b@),
{
    if a.len() != b.len() {
        return false;
    }
    let mut i: usize = 0;
    while i < a.len()
        invariant
            i <= a.len() == b.len(),
            forall|j: int| 0 <= j < i ==> a@[j] == b@[j],
        decreases a.len() - i,
    {
        if a[i] != b[i] {
            return false;
        }
        i = i + 1;
    }
    assert(a@ =~= b@);
    true
}

/// The same bytes once more.
fn copy_bytes(a: &Vec<u8>) -> (r: Vec<u8>)
    ensures
        r@ == a@,
{
    let mut r: Vec<u8> = Vec::new();
    let mut i: usize = 0;
    while i < a.len()
        invariant
            i <= a.len(),
            r@ == a@.take(i as int),
        decreases a.len() - i,
    {
        r.push(a[i]);
        i = i + 1;
        assert(r@ =~= a@.take(i as int));
    }
    assert(a@.take(i as int) =~= a@);
    r
}

/// The name of a file or a directory. It need not be text: it is given by its
/// bytes, in the encoding of the platform, and by the text that is shown for it.
#[derive(Debug)]
pub struct Name {
    pub text: String,
    pub bytes: Vec<u8>,
}

/// What a name is.
pub struct NamePart {
    pub text: Seq<char>,
    pub bytes: Seq<u8>,
}

impl View for Name {
    type V = NamePart;

    open spec fn view(&self) -> NamePart {
        NamePart { text: self.text@, bytes: self.bytes@ }
    }
}

/// The name that is a text.
pub open spec fn named(text: Seq<char>) -> NamePart {
    NamePart { text, bytes: encode_utf8(text) }
}

impl Clone for Name {
    fn clone(&self) -> (r: Self)
        ensures
            r@ == self@,
    {
        Name { text: self.text.clone(), bytes: copy_bytes(&self.bytes) }
    }
}

impl Name {
    /// Whether two names are the same.
    pub fn is_same(&self, other: &Name) -> (r: bool)
        ensures
            r == (self@ == other@),
    {
        same_bytes(&self.bytes, &other.bytes) && same_text(self.text.as_str(), other.text.as_str())
    }
}

/// A drive or a share in front of a path; only some platforms have them. Names
/// are given by their bytes.
#[derive(Debug)]
pub enum Volume {
    /// A name that is taken as it is written.
    Verbatim(Vec<u8>),
    /// A server and a share, behind which names are taken as they are written.
    VerbatimUnc(Vec<u8>, Vec<u8>),
    /// A drive, behind which names are taken as they are written.
    VerbatimDisk(u8),
    /// A device.
    DeviceNs(Vec<u8>),
    /// A server and a share.
    Unc(Vec<u8>, Vec<u8>),
    /// A drive.
    Disk(u8),
}

/// What a volume is.
pub enum VolumePart {
    Verbatim(Seq<u8>),
    VerbatimUnc(Seq<u8>, Seq<u8>),
    VerbatimDisk(u8),
    DeviceNs(Seq<u8>),
    Unc(Seq<u8>, Seq<u8>),
    Disk(u8),
}

impl View for Volume {
    type V = VolumePart;

    open spec fn view(&self) -> VolumePart {
        match *self {
            Volume::Verbatim(a) => VolumePart::Verbatim(a@),
            Volume::VerbatimUnc(a, b) => VolumePart::VerbatimUnc(a@, b@),
            Volume::VerbatimDisk(d) => VolumePart::VerbatimDisk(d),
            Volume::DeviceNs(a) => VolumePart::DeviceNs(a@),
            Volume::Unc(a, b) => VolumePart::Unc(a@, b@),
            Volume::Disk(d) => VolumePart::Disk(d),
        }
    }
}

impl Clone for Volume {
    fn clone(&self) -> (r: Self)
        ensures
            r@ == self@,
    {
        match self {
            Volume::Verbatim(a) => Volume::Verbatim(copy_bytes(a)),
            Volume::VerbatimUnc(a, b) => Volume::VerbatimUnc(copy_bytes(a), copy_bytes(b)),
            Volume::VerbatimDisk(d) => Volume::VerbatimDisk(*d),
            Volume::DeviceNs(a) => Volume::DeviceNs(copy_bytes(a)),
            Volume::Unc(a, b) => Volume::Unc(copy_bytes(a), copy_bytes(b)),
            Volume::Disk(d) => Volume::Disk(*d),
        }
    }
}

impl Volume {
    /// Whether two volumes are the same.
    pub fn is_same(&self, other: &Volume) -> (r: bool)
        ensures
            r == (self@ == other@),
    {
        match (self, other) {
            (Volume::Verbatim(a), Volume::Verbatim(b)) => same_bytes(a, b),
            (Volume::VerbatimUnc(a, x), Volume::VerbatimUnc(b, y)) => same_bytes(a, b) && same_bytes(x, y),
            (Volume::VerbatimDisk(a), Volume::VerbatimDisk(b)) => *a == *b,
            (Volume::DeviceNs(a), Volume::DeviceNs(b)) => same_bytes(a, b),
            (Volume::Unc(a, x), Volume::Unc(b, y)) => same_bytes(a, b)
                && same_bytes(x, y),
            (Volume::Disk(a), Volume::Disk(b)) => *a == *b,
            _ => false,
        }
    }
}

/// A component of a path.
#[derive(Debug)]
pub enum Component {
    /// A drive or a share in front of a path.
    Prefix(Volume),
    /// The root, behind a prefix if there is one.
    RootDir,
    /// The directory itself.
    CurDir,
    /// The directory above.
    ParentDir,
    /// The name of a file or a directory.
    Normal(Name),
}

/// What a component is.
pub enum Part {
    Prefix(VolumePart),
    RootDir,
    CurDir,
    ParentDir,
    Normal(NamePart),
}

impl View for Component {
    type V = Part;

    open spec fn view(&self) -> Part {
        match *self {
            Component::Prefix(v) => Part::Prefix(v@),
            Component::RootDir => Part::RootDir,
            Component::CurDir => Part::CurDir,
            Component::ParentDir => Part::ParentDir,
            Component::Normal(s) => Part::Normal(s@),
        }
    }
}

impl Clone for Component {
    fn clone(&self) -> (r: Self)
        ensures
            r@ == self@,
    {
        match self {
            Component::Prefix(v) => Component::Prefix(v.clone()),
            Component::RootDir => Component::RootDir,
            Component::CurDir => Component::CurDir,
            Component::ParentDir => Component::ParentDir,
            Component::Normal(s) => Component::Normal(s.clone()),
        }
    }
}

impl Component {
    /// Whether two components are the same.
    pub fn is_same(&self, other: &Component) -> (r: bool)
        ensures
            r == (self@ == other@),
    {
        match (self, other) {
            (Component::Prefix(a), Component::Prefix(b)) => a.is_same(b),
            (Component::RootDir, Component::RootDir) => true,
            (Component::CurDir, Component::CurDir) => true,
            (Component::ParentDir, Component::ParentDir) => true,
            (Component::Normal(a), Component::Normal(b)) => a.is_same(b),
            _ => false,
        }
    }
}

/// The components of a list.
pub open spec fn parts_of(v: Seq<Component>) -> Seq<Part> {
    v.map_values(|c: Component| c@)
}

// ---------------------------------------------------------------------------
// Reading a path
// ---------------------------------------------------------------------------

/// Whether a text is a path on every platform alike: slashes are its only
/// separators, and nothing in front can be read as a drive or a share.
pub open spec fn slash_path(s: Seq<char>) -> bool {
    &&& !s.contains('\\')
    &&& !(s.len() >= 2 && s[1] == ':')
    &&& !(s.len() >= 2 && s[0] == '/' && s[1] == '/')
}

/// How many characters stand in front of the first slash, or in the whole text.
pub open spec fn piece_length(s: Seq<char>) -> nat
    decreases s.len(),
{
    if s.len() == 0 || s[0] == '/' {
        0
    } else {
        1 + piece_length(s.skip(1))
    }
}

/// The component that a piece between slashes stands for, if any. An empty
/// piece stands for none; a dot stands for one at the start of the path only.
pub open spec fn piece_parts(piece: Seq<char>, at_start: bool) -> Seq<Part> {
    if piece.len() == 0 {
        Seq::empty()
    } else if piece == seq!['.'] {
        if at_start {
            seq![Part::CurDir]
        } else {
            Seq::empty()
        }
    } else if piece == seq!['.', '.'] {
        seq![Part::ParentDir]
    } else {
        seq![Part::Normal(named(piece))]
    }
}

/// The components of a text between slashes.
pub open spec fn pieces(s: Seq<char>, at_start: bool) -> Seq<Part>
    decreases s.len(),
{
    if piece_length(s) >= s.len() {
        piece_parts(s, at_start)
    } else {
        piece_parts(s.take(piece_length(s) as int), at_start) + pieces(
            s.skip(piece_length(s) as int + 1),
            false,
        )
    }
}

/// The components of a path with slashes.
pub open spec fn slash_parts(s: Seq<char>) -> Seq<Part> {
    if s.len() > 0 && s[0] == '/' {
        seq![Part::RootDir] + pieces(s.skip(1), false)
    } else {
        pieces(s, true)
    }
}

/// A path of the file system, as `std::path` holds it. It need not be text.
#[verifier::external_type_specification]
#[verifier::external_body]
pub struct ExPathBuf(std::path::PathBuf);

/// The text that a path is, if it is text: what `std::path::Path::to_str` gives.
pub uninterp spec fn path_text(p: PathBuf) -> Option<Seq<char>>;

/// `std::path::PathBuf::clone`: the same path.
pub assume_specification[ <PathBuf as Clone>::clone ](p: &PathBuf) -> (r: PathBuf)
    ensures
        r == *p,
;

/// `std::path::PathBuf::from`: the path that is a text.
#[verifier::external_body]
fn text_path(text: &str) -> (r: PathBuf)
    ensures
        path_text(r) == Some(text@),
{
    PathBuf::from(text)
}

/// The text that is shown for a path: what `std::path::Path::to_string_lossy`
/// gives.
pub uninterp spec fn path_shown(p: PathBuf) -> Seq<char>;

/// `std::path::Path::to_string_lossy`: the text that a path is, or one that is
/// shown in its place.
#[verifier::external_body]
fn shown_text(p: &PathBuf) -> (r: String)
    ensures
        r@ == path_shown(*p),
        path_text(*p) matches Some(text) ==> r@ == text,
{
    p.to_string_lossy().into_owned()
}

/// A drive or a share in front of a path, as `std::path` reads it.
#[verifier::external_type_specification]
#[verifier::external_body]
pub struct ExPrefix<'a>(std::path::Prefix<'a>);

/// A component of a path as it is read.
pub enum Piece<'a> {
    Prefix(std::path::Prefix<'a>),
    RootDir,
    CurDir,
    ParentDir,
    Normal(Name),
}

/// The volume that a `std::path::Prefix` is.
pub uninterp spec fn volume_of(p: std::path::Prefix<'_>) -> VolumePart;

/// What a component is.
pub open spec fn piece_part(p: Piece<'_>) -> Part {
    match p {
        Piece::Prefix(v) => Part::Prefix(volume_of(v)),
        Piece::RootDir => Part::RootDir,
        Piece::CurDir => Part::CurDir,
        Piece::ParentDir => Part::ParentDir,
        Piece::Normal(name) => Part::Normal(name@),
    }
}

/// What some components are.
pub open spec fn pieces_parts(v: Seq<Piece<'_>>) -> Seq<Part> {
    v.map_values(|p: Piece<'_>| piece_part(p))
}

/// `std::path::Prefix`, variant by variant: two prefixes that are equal, however
/// they are written, are the same volume.
#[verifier::external_body]
fn read_volume(p: std::path::Prefix<'_>) -> (r: Volume)
    ensures
        r@ == volume_of(p),
{
    match p {
        Prefix::Verbatim(a) => Volume::Verbatim(a.as_encoded_bytes().to_vec()),
        Prefix::VerbatimUNC(a, b) => Volume::VerbatimUnc(a.as_encoded_bytes().to_vec(), b.as_encoded_bytes().to_vec()),
        Prefix::VerbatimDisk(d) => Volume::VerbatimDisk(d),
        Prefix::DeviceNS(a) => Volume::DeviceNs(a.as_encoded_bytes().to_vec()),
        Prefix::UNC(a, b) => Volume::Unc(a.as_encoded_bytes().to_vec(), b.as_encoded_bytes().to_vec()),
        Prefix::Disk(d) => Volume::Disk(d),
    }
}

/// `std::path::Path::components`, each name with its bytes and its text. Repeated
/// slashes, slashes at the end and dots behind the start of a path are skipped.
/// How a text with a backslash, a colon behind its first character or two
/// slashes in front is read depends on the platform; nothing is said of it.
#[verifier::external_body]
fn path_components<'a>(path: &'a PathBuf) -> (r: Vec<Piece<'a>>)
    ensures
        path_text(*path) matches Some(text) ==> slash_path(text) ==> pieces_parts(r@)
            == slash_parts(text),
{
    path.components().map(|c| match c {
        std::path::Component::Prefix(p) => Piece::Prefix(p.kind()),
        std::path::Component::RootDir => Piece::RootDir,
        std::path::Component::CurDir => Piece::CurDir,
        std::path::Component::ParentDir => Piece::ParentDir,
        std::path::Component::Normal(n) => Piece::Normal(Name { text: n.to_string_lossy().into_owned(), bytes: n.as_encoded_bytes().to_vec() }),
    }).collect()
}

// ---------------------------------------------------------------------------
// Paths
// ---------------------------------------------------------------------------

/// A path by its components.
#[derive(Debug)]
pub struct PathParts {
    pub components: Vec<Component>,
}

impl View for PathParts {
    type V = Seq<Part>;

    open spec fn view(&self) -> Seq<Part> {
        parts_of(self.components@)
    }
}

impl Clone for PathParts {
    fn clone(&self) -> (r: Self)
        ensures
            r@ == self@,
    {
        let r: PathParts = self.tail_from(0);
        assert(self@.skip(0) =~= self@);
        r
    }
}

/// The name at the end of a path; a path that ends in anything but a name has
/// none.
pub open spec fn file_name_of(p: Seq<Part>) -> Option<Seq<char>> {
    if p.len() > 0 {
        match p.last() {
            Part::Normal(name) => Some(name.text),
            _ => None,
        }
    } else {
        None
    }
}

/// Whether names behind the volume of a path are taken as they are written.
pub open spec fn is_verbatim(p: Seq<Part>) -> bool {
    p.len() > 0 && match p[0] {
        Part::Prefix(v) => v is Verbatim || v is VerbatimUnc || v is VerbatimDisk,
        _ => false,
    }
}

/// A path with the components of another taken one after the other: a root
/// leads back to the volume, a dot nowhere, and two dots out of a directory.
pub open spec fn resolved(base: Seq<Part>, other: Seq<Part>) -> Seq<Part>
    decreases other.len(),
{
    if other.len() == 0 {
        base
    } else {
        let front = resolved(base, other.drop_last());
        match other.last() {
            Part::RootDir => if front.len() > 1 {
                front.take(1).push(Part::RootDir)
            } else {
                front.push(Part::RootDir)
            },
            Part::CurDir => front,
            Part::ParentDir => if front.len() > 0 && front.last() is Normal {
                front.drop_last()
            } else {
                front
            },
            _ => front.push(other.last()),
        }
    }
}

/// A path with another adjoined. Where the other path has a volume, it stands
/// alone; where it has a root, only the volume of the first path stays in front.
/// A dot at the start of the other path is dropped behind a name or a root.
/// Behind a volume whose names are taken as they are written, no dots are left.
pub open spec fn adjoined(base: Seq<Part>, other: Seq<Part>) -> Seq<Part> {
    if other.len() == 0 {
        base
    } else if other[0] is Prefix {
        other
    } else if is_verbatim(base) {
        resolved(base, other)
    } else if other[0] is RootDir {
        if base.len() > 0 && base[0] is Prefix {
            seq![base[0]] + other
        } else {
            other
        }
    } else if other[0] is CurDir && base.len() > 0 && !(base.last() is Prefix) {
        base + other.skip(1)
    } else {
        base + other
    }
}

/// Whether a path starts at a root, behind a volume or not.
pub open spec fn is_rooted(p: Seq<Part>) -> bool {
    if p.len() > 0 && p[0] is Prefix {
        p.len() > 1 && p[1] is RootDir
    } else {
        p.len() > 0 && p[0] is RootDir
    }
}

/// What is adjoined to a path with a root has a root, unless it has a volume of
/// its own.
pub proof fn law_adjoined_is_rooted(base: Seq<Part>, other: Seq<Part>)
    requires
        is_rooted(base),
        other.len() > 0 ==> !(other[0] is Prefix),
    ensures
        is_rooted(adjoined(base, other)),
{
    if is_verbatim(base) {
        lemma_resolved_is_rooted(base, other);
    }
}

/// Components taken one after the other lead out of no root.
proof fn lemma_resolved_is_rooted(base: Seq<Part>, other: Seq<Part>)
    requires
        is_rooted(base),
        is_verbatim(base),
    ensures
        is_rooted(resolved(base, other)),
        resolved(base, other).len() > 0,
        resolved(base, other)[0] == base[0],
    decreases other.len(),
{
    if other.len() > 0 {
        lemma_resolved_is_rooted(base, other.drop_last());
    }
}

/// A path of names only lies below the path that it is adjoined to.
pub proof fn law_adjoined_lies_below(base: Seq<Part>, other: Seq<Part>)
    requires
        forall|i: int| 0 <= i < other.len() ==> #[trigger] other[i] is Normal,
    ensures
        adjoined(base, other) == base + other,
{
    if other.len() == 0 {
        assert(base + other =~= base);
    } else {
        assert(other[0] is Normal);
        if is_verbatim(base) {
            lemma_resolved_names(base, other);
        }
    }
}

/// Names taken one after the other are put behind the path.
proof fn lemma_resolved_names(base: Seq<Part>, other: Seq<Part>)
    requires
        forall|i: int| 0 <= i < other.len() ==> #[trigger] other[i] is Normal,
    ensures
        resolved(base, other) == base + other,
    decreases other.len(),
{
    if other.len() > 0 {
        let front = other.drop_last();
        assert forall|i: int| 0 <= i < front.len() implies #[trigger] front[i] is Normal by {
            assert(other[i] is Normal);
        }
        lemma_resolved_names(base, front);
        assert(other[other.len() - 1] is Normal);
        assert((base + front).push(other.last()) =~= base + other);
    } else {
        assert(base + other =~= base);
    }
}

impl PathParts {
    /// The path that has the components that were read.
    pub fn from_pieces<'a>(pieces: Vec<Piece<'a>>) -> (r: PathParts)
        ensures
            r@ == pieces_parts(pieces@),
    {
        let ghost all = pieces_parts(pieces@);
        let mut components: Vec<Component> = Vec::new();
        assert(parts_of(components@) =~= all.take(0));
        for piece in it: pieces
            invariant
                pieces_parts(it.seq()) == all,
                parts_of(components@) == all.take(it.index()),
        {
            let ghost before = components@;
            assert(all[it.index()] == piece_part(piece));
            let component: Component = match piece {
                Piece::Prefix(p) => Component::Prefix(read_volume(p)),
                Piece::RootDir => Component::RootDir,
                Piece::CurDir => Component::CurDir,
                Piece::ParentDir => Component::ParentDir,
                Piece::Normal(name) => Component::Normal(name),
            };
            components.push(component);
            assert(parts_of(components@) =~= parts_of(before).push(component@));
            assert(all.take(it.index() + 1) =~= all.take(it.index()).push(all[it.index()]));
        }
        assert(all.take(all.len() as int) =~= all);
        PathParts { components }
    }

    /// Reads a path.
    pub fn of(path: &PathBuf) -> (r: PathParts)
        ensures
            path_text(*path) matches Some(text) ==> slash_path(text) ==> r@ == slash_parts(text),
    {
        PathParts::from_pieces(path_components(path))
    }

    /// Reads a path from its text.
    pub fn parse(text: &str) -> (r: PathParts)
        ensures
            slash_path(text@) ==> r@ == slash_parts(text@),
    {
        PathParts::of(&text_path(text))
    }

    /// The number of components.
    pub fn depth(&self) -> (r: usize)
        ensures
            r == self@.len(),
    {
        self.components.len()
    }

    /// The components from a position on.
    pub fn tail_from(&self, from: usize) -> (r: PathParts)
        requires
            from <= self@.len(),
        ensures
            r@ == self@.skip(from as int),
    {
        let mut components: Vec<Component> = Vec::new();
        let mut i: usize = from;
        while i < self.components.len()
            invariant
                from <= i <= self.components.len(),
                components.len() == i - from,
                forall|j: int|
                    0 <= j < i - from ==> (#[trigger] components@[j])@ == self@[from + j],
            decreases self.components.len() - i,
        {
            components.push(self.components[i].clone());
            i = i + 1;
        }
        let r: PathParts = PathParts { components };
        assert(r@ =~= self@.skip(from as int));
        r
    }

    /// A path with the components of another from a position on.
    fn extended(&self, other: &PathParts, from: usize) -> (r: PathParts)
        requires
            from <= other@.len(),
        ensures
            r@ == self@ + other@.skip(from as int),
    {
        let mut r: PathParts = self.clone();
        let mut i: usize = from;
        assert(r@ =~= self@ + other@.subrange(from as int, from as int));
        while i < other.components.len()
            invariant
                from <= i <= other.components.len(),
                r@ == self@ + other@.subrange(from as int, i as int),
            decreases other.components.len() - i,
        {
            let ghost before = r@;
            r.components.push(other.components[i].clone());
            assert(r@ =~= before.push(other@[i as int]));
            i = i + 1;
            assert(r@ =~= self@ + other@.subrange(from as int, i as int));
        }
        assert(other@.subrange(from as int, i as int) =~= other@.skip(from as int));
        r
    }

    /// Whether names behind the volume of the path are taken as they are
    /// written.
    fn has_verbatim_volume(&self) -> (r: bool)
        ensures
            r == is_verbatim(self@),
    {
        if self.components.len() == 0 {
            return false;
        }
        assert(self@[0] == self.components@[0]@);
        match &self.components[0] {
            Component::Prefix(v) => match v {
                Volume::Verbatim(_) | Volume::VerbatimUnc(_, _) | Volume::VerbatimDisk(_) => true,
                _ => false,
            },
            _ => false,
        }
    }

    /// A path with the components of another taken one after the other.
    fn resolve(&self, other: &PathParts) -> (r: PathParts)
        ensures
            r@ == resolved(self@, other@),
    {
        let mut r: PathParts = self.clone();
        let mut i: usize = 0;
        assert(other@.take(0) =~= Seq::<Part>::empty());
        while i < other.components.len()
            invariant
                i <= other.components.len(),
                r@ == resolved(self@, other@.take(i as int)),
            decreases other.components.len() - i,
        {
            let ghost before = r@;
            assert(other@.take(i + 1).drop_last() =~= other@.take(i as int));
            assert(other@.take(i + 1).last() == other.components@[i as int]@);
            let n: usize = r.components.len();
            match &other.components[i] {
                Component::RootDir => {
                    if n > 1 {
                        r.components.truncate(1);
                        assert(r@ =~= before.take(1));
                    }
                    let ghost front = r@;
                    r.components.push(Component::RootDir);
                    assert(r@ =~= front.push(Part::RootDir));
                },
                Component::CurDir => {},
                Component::ParentDir => {
                    if n > 0 {
                        assert(before.last() == r.components@[n - 1]@);
                        let named: bool = match &r.components[n - 1] {
                            Component::Normal(_) => true,
                            _ => false,
                        };
                        if named {
                            r.components.truncate(n - 1);
                            assert(r@ =~= before.drop_last());
                        }
                    }
                },
                component => {
                    r.components.push(component.clone());
                    assert(r@ =~= before.push(other@[i as int]));
                },
            }
            i = i + 1;
        }
        assert(other@.take(i as int) =~= other@);
        r
    }

    /// A path with another adjoined.
    pub fn join(&self, other: &PathParts) -> (r: PathParts)
        ensures
            r@ == adjoined(self@, other@),
    {
        if other.components.len() == 0 {
            return self.clone();
        }
        assert(other@[0] == other.components@[0]@);
        assert(other@.skip(0) =~= other@);
        let n: usize = self.components.len();
        proof {
            if n > 0 {
                assert(self@[0] == self.components@[0]@);
                assert(self@.last() == self.components@[n - 1]@);
            }
        }
        if let Component::Prefix(_) = &other.components[0] {
            return other.clone();
        }
        if self.has_verbatim_volume() {
            return self.resolve(other);
        }
        match &other.components[0] {
            Component::RootDir => {
                if n > 0 {
                    if let Component::Prefix(_) = &self.components[0] {
                        let mut components: Vec<Component> = Vec::new();
                        components.push(self.components[0].clone());
                        let front: PathParts = PathParts { components };
                        assert(front@ =~= seq![self@[0]]);
                        return front.extended(other, 0);
                    }
                }
                other.clone()
            },
            Component::CurDir => {
                if n > 0 {
                    if let Component::Prefix(_) = &self.components[n - 1] {
                        return self.extended(other, 0);
                    }
                    return self.extended(other, 1);
                }
                self.extended(other, 0)
            },
            _ => self.extended(other, 0),
        }
    }

    /// The name at the end of the path.
    pub fn file_name(&self) -> (r: Option<String>)
        ensures
            r is Some == file_name_of(self@) is Some,
            r matches Some(name) ==> file_name_of(self@) == Some(name@),
    {
        let n: usize = self.components.len();
        if n == 0 {
            return None;
        }
        assert(self@.last() == self.components@[n - 1]@);
        match &self.components[n - 1] {
            Component::Normal(name) => Some(name.text.clone()),
            _ => None,
        }
    }

    /// Whether the path starts with the components of another.
    pub fn starts_with(&self, base: &PathParts) -> (r: bool)
        ensures
            r == base@.is_prefix_of(self@),
    {
        if base.components.len() > self.components.len() {
            return false;
        }
        let mut i: usize = 0;
        while i < base.components.len()
            invariant
                i <= base.components.len() <= self.components.len(),
                forall|j: int| 0 <= j < i ==> base@[j] == self@[j],
            decreases base.components.len() - i,
        {
            assert(base@[i as int] == base.components@[i as int]@);
            assert(self@[i as int] == self.components@[i as int]@);
            if !base.components[i].is_same(&self.components[i]) {
                assert(self@.subrange(0, base@.len() as int)[i as int] == self@[i as int]);
                return false;
            }
            i = i + 1;
        }
        assert(self@.subrange(0, base@.len() as int) =~= base@);
        true
    }

    /// Whether two paths have the same components.
    pub fn is_same(&self, other: &PathParts) -> (r: bool)
        ensures
            r == (self@ == other@),
    {
        if self.components.len() != other.components.len() {
            assert(self@.len() != other@.len());
            return false;
        }
        let r: bool = self.starts_with(other);
        proof {
            if r {
                assert(self@.subrange(0, other@.len() as int) =~= self@);
            }
        }
        r
    }

    /// What is left of the path behind the components of another.
    pub fn strip_prefix(&self, base: &PathParts) -> (r: Option<PathParts>)
        ensures
            r is Some == base@.is_prefix_of(self@),
            r matches Some(rest) ==> base@ + rest@ == self@,
    {
        if self.starts_with(base) {
            let rest: PathParts = self.tail_from(base.components.len());
            assert(base@ + rest@ =~= self@);
            Some(rest)
        } else {
            None
        }
    }
}

// ---------------------------------------------------------------------------
// Paths of the file system
// ---------------------------------------------------------------------------

/// Whether a text is another with a third behind it, and a separator between
/// them. Which separator it is depends on the platform.
pub open spec fn is_joined_text(text: Seq<char>, base: Seq<char>, other: Seq<char>) -> bool {
    text == base + seq!['/'] + other || text == base + seq!['\\'] + other
}

/// Whether a path, as far as it is text, is another with a third adjoined. A
/// path that starts at the root stands alone; any other is put behind the first,
/// with a separator unless there is one. Something is said only of paths that
/// are read alike on every platform.
pub open spec fn is_joining(
    text: Option<Seq<char>>,
    base: Option<Seq<char>>,
    other: Option<Seq<char>>,
) -> bool {
    base is Some && other is Some && slash_path(base->0) && slash_path(other->0)
        && other->0.len() > 0 ==> if other->0[0] == '/' {
        text == other
    } else if base->0.len() == 0 || base->0.last() == '/' {
        text == Some(base->0 + other->0)
    } else {
        text is Some && is_joined_text(text->0, base->0, other->0)
    }
}

/// `std::path::Path::join`: a path that starts at the root replaces the first
/// one, and any other is put behind it. What comes of paths that the platforms
/// read differently is left unsaid.
#[verifier::external_body]
fn join_paths(base: &PathBuf, other: &PathBuf) -> (r: PathBuf)
    ensures
        is_joining(path_text(r), path_text(*base), path_text(*other)),
{
    base.join(other)
}

/// Whether a path ends in anything but a root or a volume.
pub open spec fn has_parent(p: Seq<Part>) -> bool {
    p.len() > 0 && !(p.last() is RootDir) && !(p.last() is Prefix)
}

/// Whether a path, as far as it is text, is the parent of another: that without
/// its last component. Something is said only of paths that are read alike on
/// every platform.
pub open spec fn is_parent(parent: Option<Option<Seq<char>>>, path: Option<Seq<char>>) -> bool {
    path is Some && slash_path(path->0) ==> match parent {
        Some(text) => text is Some && slash_path(text->0) && has_parent(slash_parts(path->0))
            && slash_parts(text->0) == slash_parts(path->0).drop_last(),
        None => !has_parent(slash_parts(path->0)),
    }
}

/// The texts of a path that may be missing.
pub open spec fn maybe_path_text(p: Option<PathBuf>) -> Option<Option<Seq<char>>> {
    match p {
        Some(path) => Some(path_text(path)),
        None => None,
    }
}

/// `std::path::Path::parent`: the path without its last component, if it has one
/// that is neither a root nor a volume.
#[verifier::external_body]
fn parent_path(p: &PathBuf) -> (r: Option<PathBuf>)
    ensures
        is_parent(maybe_path_text(r), path_text(*p)),
{
    p.parent().map(|q| q.to_path_buf())
}

/// Whether a path, as far as it is text, starts at no root on any platform.
pub open spec fn is_relative_text(text: Option<Seq<char>>) -> bool {
    text is Some && slash_path(text->0) && (text->0.len() == 0 || text->0[0] != '/')
}

/// `std::path::Path::is_absolute`. A path without a root is not absolute; whether
/// one with a root is depends on the platform.
#[verifier::external_body]
fn path_is_absolute(p: &PathBuf) -> (r: bool)
    ensures
        r ==> !is_relative_text(path_text(*p)),
{
    p.is_absolute()
}

/// A path as it was written: the path itself, its text and its components.
#[derive(Debug)]
pub struct FilePath {
    pub path: PathBuf,
    pub text: String,
    pub parts: PathParts,
}

impl FilePath {
    /// Whether the text and the components are those of the path.
    pub open spec fn is_read(self) -> bool {
        &&& self.text@ == path_shown(self.path)
        &&& path_text(self.path) is Some ==> self.text@ == path_text(self.path)->0
        &&& path_text(self.path) is Some && slash_path(path_text(self.path)->0) ==> self.parts@
            == slash_parts(path_text(self.path)->0)
    }

    /// Reads a path of the file system.
    pub fn from_path(path: PathBuf) -> (r: FilePath)
        ensures
            r.path == path,
            r.is_read(),
    {
        let text: String = shown_text(&path);
        let parts: PathParts = PathParts::of(&path);
        FilePath { path, text, parts }
    }

    /// Reads a path from its text.
    pub fn new(text: &str) -> (r: FilePath)
        ensures
            path_text(r.path) == Some(text@),
            r.text@ == text@,
            slash_path(text@) ==> r.parts@ == slash_parts(text@),
            r.is_read(),
    {
        FilePath::from_path(text_path(text))
    }

    /// A path with another adjoined.
    pub fn join(&self, other: &FilePath) -> (r: FilePath)
        ensures
            r.parts@ == adjoined(self.parts@, other.parts@),
            r.text@ == path_shown(r.path),
            path_text(r.path) is Some ==> r.text@ == path_text(r.path)->0,
            is_joining(path_text(r.path), path_text(self.path), path_text(other.path)),
            self.is_read() && other.is_read() && path_text(self.path) is Some && path_text(
                other.path,
            ) is Some && slash_path(path_text(self.path)->0) && slash_path(
                path_text(other.path)->0,
            ) && path_text(other.path)->0.len() > 0 ==> r.is_read(),
    {
        let path: PathBuf = join_paths(&self.path, &other.path);
        let text: String = shown_text(&path);
        let r: FilePath = FilePath { path, text, parts: self.parts.join(&other.parts) };
        proof {
            if path_text(self.path) is Some && path_text(other.path) is Some {
                let a = path_text(self.path)->0;
                let b = path_text(other.path)->0;
                if slash_path(a) && slash_path(b) && b.len() > 0 && slash_path(
                    path_text(r.path)->0,
                ) {
                    lemma_parts_of_joining(a, b, path_text(r.path)->0);
                }
            }
        }
        r
    }

    /// The path without its last component, if it has a parent.
    pub fn parent(&self) -> (r: Option<FilePath>)
        ensures
            is_parent(
                match r {
                    Some(p) => Some(path_text(p.path)),
                    None => None,
                },
                path_text(self.path),
            ),
            r matches Some(p) ==> p.is_read(),
    {
        match parent_path(&self.path) {
            Some(p) => Some(FilePath::from_path(p)),
            None => None,
        }
    }

    /// Whether the path is absolute.
    pub fn is_absolute(&self) -> (r: bool)
        ensures
            r ==> !is_relative_text(path_text(self.path)),
    {
        path_is_absolute(&self.path)
    }
}

impl Clone for FilePath {
    fn clone(&self) -> (r: Self)
        ensures
            r.path == self.path,
            r.text@ == self.text@,
            r.parts@ == self.parts@,
    {
        FilePath { path: self.path.clone(), text: self.text.clone(), parts: self.parts.clone() }
    }
}

// ---------------------------------------------------------------------------
// The components of paths that are put together
// ---------------------------------------------------------------------------

/// A piece in front of a slash is as long with what follows as without.
proof fn lemma_piece_length(s: Seq<char>, t: Seq<char>)
    ensures
        piece_length(s + seq!['/'] + t) == piece_length(s),
        piece_length(s) <= s.len(),
    decreases s.len(),
{
    let whole = s + seq!['/'] + t;
    if s.len() == 0 {
        assert(whole[0] == '/');
    } else {
        assert(whole[0] == s[0]);
        if s[0] != '/' {
            assert(whole.skip(1) =~= s.skip(1) + seq!['/'] + t);
            lemma_piece_length(s.skip(1), t);
        }
    }
}

/// A slash parts the components in front of it from those behind it.
proof fn lemma_pieces_split(s: Seq<char>, t: Seq<char>, at_start: bool)
    ensures
        pieces(s + seq!['/'] + t, at_start) == pieces(s, at_start) + pieces(t, false),
    decreases s.len(),
{
    let whole = s + seq!['/'] + t;
    let k = piece_length(s) as int;
    lemma_piece_length(s, t);
    assert(whole.take(k) =~= s.take(k));
    if k == s.len() {
        assert(s.take(k) =~= s);
        assert(whole.skip(k + 1) =~= t);
    } else {
        assert(whole.skip(k + 1) =~= s.skip(k + 1) + seq!['/'] + t);
        lemma_pieces_split(s.skip(k + 1), t, false);
        assert(pieces(whole, at_start) =~= pieces(s, at_start) + pieces(t, false));
    }
}

/// Components between slashes are neither roots nor volumes.
proof fn lemma_pieces_are_plain(s: Seq<char>, at_start: bool)
    ensures
        forall|i: int|
            0 <= i < pieces(s, at_start).len() ==> !(#[trigger] pieces(s, at_start)[i] is RootDir)
                && !(pieces(s, at_start)[i] is Prefix),
    decreases s.len(),
{
    let k = piece_length(s) as int;
    if k < s.len() {
        lemma_pieces_are_plain(s.skip(k + 1), false);
    }
}

/// A path that does not start at the root has a first component, and only a dot
/// there depends on where it stands.
proof fn lemma_pieces_at_start(s: Seq<char>)
    requires
        s.len() > 0,
        s[0] != '/',
    ensures
        pieces(s, true).len() > 0,
        pieces(s, true)[0] is CurDir ==> pieces(s, true).skip(1) == pieces(s, false),
        !(pieces(s, true)[0] is CurDir) ==> pieces(s, true) == pieces(s, false),
{
    let k = piece_length(s) as int;
    assert(k >= 1);
    if k < s.len() {
        let first = s.take(k);
        let rest = pieces(s.skip(k + 1), false);
        assert(first.len() > 0);
        assert(pieces(s, true) == piece_parts(first, true) + rest);
        assert(pieces(s, false) == piece_parts(first, false) + rest);
        if first == seq!['.'] {
            assert((seq![Part::CurDir] + rest).skip(1) =~= Seq::<Part>::empty() + rest);
        }
    } else if s == seq!['.'] {
        assert(seq![Part::CurDir].skip(1) =~= Seq::<Part>::empty());
    }
}

/// The components of a path, a slash and a relative path.
proof fn lemma_parts_with_slash(a: Seq<char>, b: Seq<char>)
    requires
        a.len() > 0,
        b.len() > 0,
        b[0] != '/',
    ensures
        slash_parts(a + seq!['/'] + b) == adjoined(slash_parts(a), slash_parts(b)),
{
    let whole = a + seq!['/'] + b;
    let base = slash_parts(a);
    let other = slash_parts(b);
    assert(whole[0] == a[0]);
    lemma_pieces_at_start(b);
    lemma_pieces_are_plain(b, true);
    if a[0] == '/' {
        assert(whole.skip(1) =~= a.skip(1) + seq!['/'] + b);
        lemma_pieces_split(a.skip(1), b, false);
        lemma_pieces_are_plain(a.skip(1), false);
    } else {
        lemma_pieces_split(a, b, true);
        lemma_pieces_are_plain(a, true);
        lemma_pieces_at_start(a);
    }
    assert(!(base[0] is Prefix));
    assert(!(base[base.len() - 1] is Prefix));
    assert(slash_parts(whole) =~= base + pieces(b, false));
    assert(adjoined(base, other) =~= base + pieces(b, false));
}

/// The components of a path with another adjoined.
proof fn lemma_parts_of_joining(a: Seq<char>, b: Seq<char>, text: Seq<char>)
    requires
        slash_path(a),
        slash_path(b),
        b.len() > 0,
        is_joining(Some(text), Some(a), Some(b)),
        slash_path(text),
    ensures
        slash_parts(text) == adjoined(slash_parts(a), slash_parts(b)),
{
    let base = slash_parts(a);
    let other = slash_parts(b);
    lemma_pieces_are_plain(a, true);
    if a.len() > 0 {
        lemma_pieces_are_plain(a.skip(1), false);
    }
    assert(base.len() > 0 ==> !(base[0] is Prefix));
    lemma_pieces_are_plain(b, true);
    if b[0] == '/' {
        assert(other[0] is RootDir);
        assert(text == b);
    } else if a.len() == 0 {
        lemma_pieces_at_start(b);
        assert(text =~= b);
        assert(piece_length(a) == 0);
        assert(base =~= Seq::<Part>::empty());
        assert(adjoined(base, other) =~= other);
    } else if a.last() == '/' {
        let front = a.drop_last();
        let none = Seq::<char>::empty();
        assert(text =~= front + seq!['/'] + b);
        assert(a =~= front + seq!['/'] + none);
        assert(pieces(none, false) =~= Seq::<Part>::empty());
        if front.len() == 0 {
            assert(a.skip(1) =~= none);
            assert(text.skip(1) =~= b);
            assert(base =~= seq![Part::RootDir]);
            lemma_pieces_at_start(b);
            assert(adjoined(base, other) =~= base + pieces(b, false));
        } else {
            assert(a[0] == front[0]);
            if front[0] == '/' {
                assert(a.skip(1) =~= front.skip(1) + seq!['/'] + none);
                lemma_pieces_split(front.skip(1), none, false);
            } else {
                lemma_pieces_split(front, none, true);
            }
            assert(base =~= slash_parts(front));
            lemma_parts_with_slash(front, b);
        }
    } else {
        if text == a + seq!['\\'] + b {
            assert(text[a.len() as int] == '\\');
            assert(text.contains('\\'));
        }
        lemma_parts_with_slash(a, b);
    }
}

// ---------------------------------------------------------------------------
// Places
// ---------------------------------------------------------------------------

/// A place below a path of the file system: the path, and the names that lead
/// from it to the place.
#[derive(Debug)]
pub struct Location {
    pub base: PathBuf,
    pub below: Vec<String>,
}

/// What a location is.
pub struct Site {
    pub base: PathBuf,
    pub below: Seq<Seq<char>>,
}

impl Site {
    /// A place directly below.
    pub open spec fn child(self, name: Seq<char>) -> Site {
        Site { base: self.base, below: self.below.push(name) }
    }
}

impl View for Location {
    type V = Site;

    open spec fn view(&self) -> Site {
        Site { base: self.base, below: texts(self.below@) }
    }
}

impl Clone for Location {
    fn clone(&self) -> (r: Self)
        ensures
            r@ == self@,
    {
        let mut below: Vec<String> = Vec::new();
        let mut i: usize = 0;
        while i < self.below.len()
            invariant
                i <= self.below.len(),
                below.len() == i,
                forall|j: int| 0 <= j < i ==> (#[trigger] below@[j])@ == self.below@[j]@,
            decreases self.below.len() - i,
        {
            below.push(self.below[i].clone());
            i = i + 1;
        }
        assert(texts(below@) =~= texts(self.below@));
        Location { base: self.base.clone(), below }
    }
}

impl Location {
    /// The place that a path leads to.
    pub fn at(base: PathBuf) -> (r: Location)
        ensures
            r@ == (Site { base, below: Seq::empty() }),
    {
        let r: Location = Location { base, below: Vec::new() };
        assert(texts(r.below@) =~= Seq::<Seq<char>>::empty());
        r
    }

    /// A place directly below.
    pub fn join_name(&self, name: &str) -> (r: Location)
        ensures
            r@ == self@.child(name@),
    {
        let mut r: Location = self.clone();
        let ghost before = texts(r.below@);
        r.below.push(name.to_owned());
        assert(texts(r.below@) =~= before.push(name@));
        r
    }
}

// ---------------------------------------------------------------------------
// Laws of components
// ---------------------------------------------------------------------------

/// Two components are the same only if they are of one kind; names only if they
/// have the same bytes and the same text, and volumes only if they are of one
/// kind with the same bytes.
pub proof fn law_components_are_told_apart(a: Component, b: Component)
    ensures
        a@ == b@ <==> match (a, b) {
            (Component::Prefix(x), Component::Prefix(y)) => match (x, y) {
                (Volume::Verbatim(p), Volume::Verbatim(q)) => p@ == q@,
                (Volume::VerbatimUnc(p, s), Volume::VerbatimUnc(q, t)) => p@ == q@ && s@ == t@,
                (Volume::VerbatimDisk(p), Volume::VerbatimDisk(q)) => p == q,
                (Volume::DeviceNs(p), Volume::DeviceNs(q)) => p@ == q@,
                (Volume::Unc(p, s), Volume::Unc(q, t)) => p@ == q@ && s@ == t@,
                (Volume::Disk(p), Volume::Disk(q)) => p == q,
                _ => false,
            },
            (Component::RootDir, Component::RootDir) => true,
            (Component::CurDir, Component::CurDir) => true,
            (Component::ParentDir, Component::ParentDir) => true,
            (Component::Normal(x), Component::Normal(y)) => x.bytes@ == y.bytes@ && x.text@
                == y.text@,
            _ => false,
        },
{
}

/// Two paths are the same if and only if they have as many components, each the
/// same as the other's.
pub proof fn law_paths_are_told_apart(a: PathParts, b: PathParts)
    ensures
        a@ == b@ <==> a.components@.len() == b.components@.len() && forall|i: int|
            0 <= i < a.components@.len() ==> (#[trigger] a.components@[i])@ == b.components@[i]@,
{
    assert(a@.len() == a.components@.len());
    assert(b@.len() == b.components@.len());
    if a@ == b@ {
        assert forall|i: int| 0 <= i < a.components@.len() implies (#[trigger] a.components@[i])@
            == b.components@[i]@ by {
            assert(a@[i] == a.components@[i]@);
            assert(b@[i] == b.components@[i]@);
        }
    }
    if a.components@.len() == b.components@.len() && forall|i: int|
        0 <= i < a.components@.len() ==> (#[trigger] a.components@[i])@ == b.components@[i]@ {
        assert(a@ =~= b@);
    }
}

/// The name of a path is that of its last component, if that is a name.
pub proof fn law_file_name(p: Seq<Part>, last: Part)
    ensures
        file_name_of(Seq::empty()) is None,
        last matches Part::Normal(name) ==> file_name_of(p.push(last)) == Some(name.text),
        !(last is Normal) ==> file_name_of(p.push(last)) is None,
{
    assert(p.push(last).last() == last);
}

/// A text without slashes is one component, named by it unless it is one dot or
/// two; and the slash alone is the root.
pub proof fn law_components_of_a_name(name: Seq<char>)
    requires
        name.len() > 0,
        forall|i: int| 0 <= i < name.len() ==> #[trigger] name[i] != '/',
    ensures
        slash_parts(Seq::<char>::empty()) == Seq::<Part>::empty(),
        slash_parts(seq!['/']) == seq![Part::RootDir],
        name == seq!['.'] ==> slash_parts(name) == seq![Part::CurDir],
        name == seq!['.', '.'] ==> slash_parts(name) == seq![Part::ParentDir],
        name != seq!['.'] && name != seq!['.', '.'] ==> slash_parts(name) == seq![
            Part::Normal(NamePart { text: name, bytes: encode_utf8(name) }),
        ],
{
    lemma_slashless(name);
    let none = Seq::<char>::empty();
    assert(seq!['/'].skip(1) =~= none);
    assert(pieces(none, false) =~= Seq::<Part>::empty());
    assert(seq![Part::RootDir] + pieces(none, false) =~= seq![Part::RootDir]);
    assert(name[0] != '/');
}

/// A text without slashes is one piece.
proof fn lemma_slashless(name: Seq<char>)
    requires
        forall|i: int| 0 <= i < name.len() ==> #[trigger] name[i] != '/',
    ensures
        piece_length(name) == name.len(),
    decreases name.len(),
{
    if name.len() > 0 {
        let tail = name.skip(1);
        assert(name[0] != '/');
        assert forall|i: int| 0 <= i < tail.len() implies #[trigger] tail[i] != '/' by {
            assert(tail[i] == name[i + 1]);
        }
        lemma_slashless(tail);
    }
}

/// What stands behind a slash at the end of a path is one component more: a name,
/// or the parent for two dots; nothing and one dot add none.
pub proof fn law_components_behind_a_slash(path: Seq<char>, name: Seq<char>)
    requires
        path.len() > 0,
        forall|i: int| 0 <= i < name.len() ==> #[trigger] name[i] != '/',
    ensures
        name.len() == 0 || name == seq!['.'] ==> slash_parts(path + seq!['/'] + name)
            == slash_parts(path),
        name == seq!['.', '.'] ==> slash_parts(path + seq!['/'] + name) == slash_parts(path).push(
            Part::ParentDir,
        ),
        name.len() > 0 && name != seq!['.'] && name != seq!['.', '.'] ==> slash_parts(
            path + seq!['/'] + name,
        ) == slash_parts(path).push(Part::Normal(NamePart { text: name, bytes: encode_utf8(name) })),
{
    let whole = path + seq!['/'] + name;
    lemma_slashless(name);
    assert(whole[0] == path[0]);
    if path[0] == '/' {
        assert(whole.skip(1) =~= path.skip(1) + seq!['/'] + name);
        lemma_pieces_split(path.skip(1), name, false);
    } else {
        lemma_pieces_split(path, name, true);
    }
    assert(slash_parts(whole) =~= slash_parts(path) + piece_parts(name, false));
}

/// What comes of adjoining a path: nothing changes nothing; a volume or, where
/// the first path has none, a root stands alone; and anything else is put behind
/// the first path, without a dot in front if there is something before it.
pub proof fn law_adjoined(base: Seq<Part>, other: Seq<Part>)
    ensures
        other.len() == 0 ==> adjoined(base, other) == base,
        other.len() > 0 && other[0] is Prefix ==> adjoined(base, other) == other,
        other.len() > 0 && other[0] is RootDir && (base.len() == 0 || !(base[0] is Prefix))
            ==> adjoined(base, other) == other,
        other.len() > 0 && (other[0] is Normal || other[0] is ParentDir) && (base.len() == 0 || !(
        base[0] is Prefix)) ==> adjoined(base, other) == base + other,
        other.len() > 0 && other[0] is CurDir && base.len() > 0 && !(base[0] is Prefix) && !(
        base.last() is Prefix) ==> adjoined(base, other) == base + other.skip(1),
        other.len() > 0 && base.len() == 0 ==> adjoined(base, other) == other,
{
    if base.len() == 0 {
        assert(base + other =~= other);
    }
}

/// Behind a volume whose names are taken as they are written, each component
/// leads on from where the ones before it lead.
pub proof fn law_resolved(base: Seq<Part>, other: Seq<Part>, name: NamePart)
    ensures
        resolved(base, Seq::empty()) == base,
        resolved(base, other.push(Part::CurDir)) == resolved(base, other),
        resolved(base, other.push(Part::Normal(name))) == resolved(base, other).push(
            Part::Normal(name),
        ),
        resolved(base, other.push(Part::Normal(name)).push(Part::ParentDir)) == resolved(base, other),
{
    assert(other.push(Part::CurDir).drop_last() =~= other);
    let named = other.push(Part::Normal(name));
    assert(named.drop_last() =~= other);
    assert(named.push(Part::ParentDir).drop_last() =~= named);
    assert(resolved(base, other).push(Part::Normal(name)).drop_last() =~= resolved(base, other));
}

/// The texts of paths that are joined, where the platforms read them alike.
pub proof fn law_joining(text: Option<Seq<char>>, base: Seq<char>, other: Seq<char>)
    requires
        is_joining(text, Some(base), Some(other)),
        !base.contains('\\') && !(base.len() >= 2 && base[1] == ':') && !(base.len() >= 2 && base[0]
            == '/' && base[1] == '/'),
        !other.contains('\\') && !(other.len() >= 2 && other[1] == ':') && !(other.len() >= 2
            && other[0] == '/' && other[1] == '/'),
        other.len() > 0,
    ensures
        other[0] == '/' ==> text == Some(other),
        other[0] != '/' && (base.len() == 0 || base.last() == '/') ==> text == Some(base + other),
        other[0] != '/' && base.len() > 0 && base.last() != '/' ==> text == Some(
            base + seq!['/'] + other,
        ) || text == Some(base + seq!['\\'] + other),
{
}

/// A place below another has the same base and one name more.
pub proof fn law_child(site: Site, name: Seq<char>)
    ensures
        site.child(name).base == site.base,
        site.child(name).below == site.below.push(name),
{
}

/// A location is its base and its names, one for one.
pub proof fn law_location(l: Location)
    ensures
        l@.base == l.base,
        l@.below.len() == l.below@.len(),
        forall|i: int| 0 <= i < l.below@.len() ==> #[trigger] l@.below[i] == l.below@[i]@,
{
}

/// The parent of a path is the path without its last component; only a path that
/// is empty or ends in a root or a volume has none.
pub proof fn law_parent(parent: Option<Option<Seq<char>>>, path: Seq<char>)
    requires
        is_parent(parent, Some(path)),
        !path.contains('\\') && !(path.len() >= 2 && path[1] == ':') && !(path.len() >= 2 && path[0]
            == '/' && path[1] == '/'),
    ensures
        parent is None <==> slash_parts(path).len() == 0 || slash_parts(path).last() is RootDir
            || slash_parts(path).last() is Prefix,
        parent is Some ==> parent->0 is Some && slash_parts(parent->0->0).push(
            slash_parts(path).last(),
        ) == slash_parts(path),
{
    if parent is Some {
        assert(slash_parts(path).drop_last().push(slash_parts(path).last()) =~= slash_parts(path));
    }
}

/// A path starts at a root if its first component is one, or its second behind a
/// volume.
pub proof fn law_rooted(p: Seq<Part>)
    ensures
        p.len() == 0 ==> !is_rooted(p),
        p.len() > 0 && !(p[0] is Prefix) ==> (is_rooted(p) <==> p[0] is RootDir),
        p.len() > 0 && p[0] is Prefix ==> (is_rooted(p) <==> p.len() > 1 && p[1] is RootDir),
{
}

} // verus!
