//! The source map: the interner that gives every registered file a disjoint
//! range of one 32-bit position space, and answers queries on positions.
use vstd::prelude::*;
use std::rc::Rc;
use rustc_hash::FxHashMap;
use crate::pos::BytePos;
use crate::file_name::FileName;
use crate::source_file::SourceFile;
use crate::path_mapping::{map_prefix_spec, FilePathMapping};
use crate::stable_id::StableSourceFileId;
use crate::text::{byte_len, chars_of};

verus! {

/// rustc_hash's hasher builder, carried as the hasher of the identifier index.
#[verifier::external_type_specification]
#[verifier::external_body]
pub struct ExFxBuildHasher(rustc_hash::FxBuildHasher);

/// Relies on std's `HashMap::default` (with rustc_hash's hasher): an empty map.
#[verifier::external_body]
fn id_index_new() -> (r: FxHashMap<u128, Rc<SourceFile>>)
    ensures
        r@.dom().len() == 0,
        r@.dom().finite(),
{
    FxHashMap::default()
}

/// Relies on std's `HashMap::insert` (with rustc_hash's hasher): afterwards
/// the key maps to the value and no other entry changed.
#[verifier::external_body]
fn id_index_insert(m: &mut FxHashMap<u128, Rc<SourceFile>>, k: u128, v: Rc<SourceFile>)
    ensures
        final(m)@ == old(m)@.insert(k, v),
{
    m.insert(k, v);
}

/// Relies on std's `HashMap::get` (with rustc_hash's hasher): the value the
/// key maps to, if any.
#[verifier::external_body]
fn id_index_get(m: &FxHashMap<u128, Rc<SourceFile>>, k: u128) -> (r: Option<Rc<SourceFile>>)
    ensures
        r == (if m@.contains_key(k) { Some(m@[k]) } else { None::<Rc<SourceFile>> }),
{
    m.get(&k).cloned()
}

/// The text without a leading byte order mark.
pub open spec fn strip_bom(s: Seq<char>) -> Seq<char> {
    if s.len() > 0 && s[0] == '\u{feff}' {
        s.drop_first()
    } else {
        s
    }
}

/// The index of the last of the first `n` files that starts at or before
/// `pos`, or -1.
pub open spec fn last_file_at_or_before(files: Seq<Rc<SourceFile>>, pos: int, n: int) -> int
    decreases n,
{
    if n <= 0 {
        -1
    } else if files[n - 1].start_pos.0 <= pos {
        n - 1
    } else {
        last_file_at_or_before(files, pos, n - 1)
    }
}

/// The index of the file that a lookup of `pos` resolves to in `files`: the
/// last one that starts at or before `pos`, when `pos` is not past its end.
/// -1 for the dummy position and for a position outside every file.
pub open spec fn file_index_in(files: Seq<Rc<SourceFile>>, pos: BytePos) -> int {
    let k = last_file_at_or_before(files, pos.0 as int, files.len() as int);
    if pos.0 != 0 && k >= 0 && pos.0 <= files[k].end_pos.0 {
        k
    } else {
        -1
    }
}

/// The name a file is registered under: real paths go through the mapping.
pub open spec fn mapped_name(m: FilePathMapping, n: FileName) -> (crate::file_name::FileNameKey, bool) {
    match n {
        FileName::Real(p) => {
            let (q, remapped) = map_prefix_spec(m.rules(), m.rules().len() as int, p@);
            (crate::file_name::FileNameKey::Real(q), remapped)
        },
        _ => (n@, false),
    }
}

/// The interner of source files.
pub struct SourceMap {
    /// The registered files, in order of position.
    pub files: Vec<Rc<SourceFile>>,
    /// The registered files by stable identifier.
    pub stable_id_to_source_file: FxHashMap<u128, Rc<SourceFile>>,
    /// The position the next file will start at.
    pub start_pos: u32,
    /// The rules that rewrite the paths of real files.
    pub path_mapping: FilePathMapping,
    /// A file name and a line offset applied to reported lines.
    pub doctest_offset: Option<(FileName, isize)>,
}

impl Default for SourceMap {
    fn default() -> (r: SourceMap)
        ensures
            r.wf(),
            r.files@.len() == 0,
            r.start_pos == 1,
    {
        SourceMap::new(FilePathMapping::empty())
    }
}

impl SourceMap {
    /// Every file is well formed; files are in order, separated by at least
    /// one unused position, and all lie before the next start position.
    pub open spec fn wf(&self) -> bool {
        &&& forall|i: int| 0 <= i < self.files@.len() ==> (#[trigger] self.files@[i]).wf()
        &&& forall|i: int, j: int|
            0 <= i < j < self.files@.len() ==> self.files@[i].end_pos.0 < self.files@[j].start_pos.0
        &&& forall|i: int|
            0 <= i < self.files@.len() ==> 1 <= (#[trigger] self.files@[i]).start_pos.0 && self.files@[i].end_pos.0
                < self.start_pos
        &&& 1 <= self.start_pos
        &&& forall|k: u128|
            #[trigger] self.stable_id_to_source_file@.contains_key(k) ==> exists|i: int|
                0 <= i < self.files@.len() && self.files@[i] == self.stable_id_to_source_file@[k]
    }

    /// The index of the file that holds `pos`, or -1.
    pub open spec fn file_index(&self, pos: BytePos) -> int {
        file_index_in(self.files@, pos)
    }

    /// An empty source map with the given path rules.
    pub fn new(path_mapping: FilePathMapping) -> (r: SourceMap)
        ensures
            r.wf(),
            r.files@.len() == 0,
            r.start_pos == 1,
            r.path_mapping == path_mapping,
    {
        SourceMap {
            files: Vec::new(),
            stable_id_to_source_file: id_index_new(),
            start_pos: 1,
            path_mapping,
            doctest_offset: None,
        }
    }

    /// The path rules.
    pub fn path_mapping(&self) -> (r: &FilePathMapping)
        ensures
            *r == self.path_mapping,
    {
        &self.path_mapping
    }

    /// The registered files, in order of position.
    pub fn files(&self) -> (r: &Vec<Rc<SourceFile>>)
        ensures
            r@ == self.files@,
    {
        &self.files
    }

    /// The file registered under a stable identifier.
    pub fn source_file_by_stable_id(&self, stable_id: StableSourceFileId) -> (r: Option<Rc<SourceFile>>)
        requires
            self.wf(),
        ensures
            r == (if self.stable_id_to_source_file@.contains_key(stable_id.0) {
                Some(self.stable_id_to_source_file@[stable_id.0])
            } else {
                None::<Rc<SourceFile>>
            }),
            r matches Some(f) ==> exists|i: int| 0 <= i < self.files@.len() && self.files@[i] == f,
    {
        id_index_get(&self.stable_id_to_source_file, stable_id.0)
    }

    /// Reserves `len + 1` positions and returns the first: the extra one
    /// keeps every file, even an empty one, at a start of its own.
    fn next_start_pos(&mut self, len: u32) -> (r: u32)
        requires
            old(self).start_pos + len + 1 <= u32::MAX,
        ensures
            r == old(self).start_pos,
            final(self).start_pos == old(self).start_pos + len + 1,
            final(self).files == old(self).files,
            final(self).stable_id_to_source_file == old(self).stable_id_to_source_file,
            final(self).path_mapping == old(self).path_mapping,
            final(self).doctest_offset == old(self).doctest_offset,
    {
        let r = self.start_pos;
        self.start_pos = self.start_pos + len + 1;
        r
    }

    /// Registers a file. A leading byte order mark is dropped, a real path
    /// goes through the path rules, and the file gets the next free range of
    /// positions. The same name may be registered twice.
    pub fn new_source_file(&mut self, filename: FileName, src: String) -> (r: Rc<SourceFile>)
        requires
            old(self).wf(),
            old(self).start_pos + byte_len(strip_bom(src@)) + 1 <= u32::MAX,
        ensures
            final(self).wf(),
            final(self).files@ == old(self).files@.push(r),
            final(self).start_pos == old(self).start_pos + byte_len(strip_bom(src@)) + 1,
            final(self).path_mapping == old(self).path_mapping,
            r.src@ == strip_bom(src@),
            r.start_pos.0 == old(self).start_pos,
            r.end_pos.0 == old(self).start_pos + byte_len(strip_bom(src@)),
            (r.name@, r.name_was_remapped) == mapped_name(old(self).path_mapping, filename),
            r.unmapped_path matches Some(u) && u@ == filename@,
            final(self).stable_id_to_source_file@ == old(self).stable_id_to_source_file@.insert(
                crate::stable_id::stable_id_of(*r),
                r,
            ),
    {
        let cs = chars_of(src.as_str());
        let text = if cs.len() > 0 && cs[0] == '\u{feff}' {
            src.as_str().substring_char(1, cs.len()).to_owned()
        } else {
            src
        };
        proof {
            assert(text@ == strip_bom(src@));
        }
        let unmapped_path = filename.duplicate();
        let (name, was_remapped) = match &filename {
            FileName::Real(p) => {
                let (q, remapped) = self.path_mapping.map_prefix(p.as_str());
                (FileName::Real(q), remapped)
            },
            _ => (filename, false),
        };
        let tcs = chars_of(text.as_str());
        let len = crate::source_file::text_byte_len(&tcs);
        let start = self.next_start_pos(len);
        let file = Rc::new(SourceFile::new(name, was_remapped, unmapped_path, text, BytePos(start)));
        let id = StableSourceFileId::new(&file);
        let ghost old_files = self.files@;
        self.files.push(file.clone());
        id_index_insert(&mut self.stable_id_to_source_file, id.0, file.clone());
        proof {
            let n = old_files.len() as int;
            assert(self.files@[n] == file);
            assert forall|k: u128| #[trigger] self.stable_id_to_source_file@.contains_key(k) implies exists|i: int|
                0 <= i < self.files@.len() && self.files@[i] == self.stable_id_to_source_file@[k] by {
                if k != id.0 {
                    let i = choose|i: int| 0 <= i < old_files.len() && old_files[i] == old(self).stable_id_to_source_file@[k];
                    assert(self.files@[i] == old_files[i]);
                } else {
                    assert(self.files@[n] == file);
                }
            }
        }
        file
    }
}


/// Registered files occupy disjoint ranges of positions, with at least one
/// unused position between any two of them.
pub proof fn lemma_files_disjoint(sm: &SourceMap, i: int, j: int)
    requires
        sm.wf(),
        0 <= i < sm.files@.len(),
        0 <= j < sm.files@.len(),
        i != j,
    ensures
        sm.files@[i].end_pos.0 < sm.files@[j].start_pos.0 || sm.files@[j].end_pos.0 < sm.files@[i].start_pos.0,
        sm.files@[i].start_pos.0 <= sm.files@[i].end_pos.0,
{
    assert(sm.files@[i].wf());
}

} // verus!
