//! Emission of version-3 source maps: which mapping records a list of
//! (source position, generated line and column) pairs turns into, and the
//! hand-over of those records to swc_sourcemap's builder.
use vstd::prelude::*;
use crate::pos::BytePos;
use crate::source_file::SourceFile;
use crate::source_map::SourceMap;
use crate::lookup::line_index_of;
use crate::char_pos::{calc_utf16_offset, lemma_extra_diff, utf16_offset, ByteToCharPosState};
use crate::lines::lemma_line_index_unique;
use crate::file_name::{FileName, FileNameKey};
use swc_sourcemap::{SourceMapBuilder, SourceMap as OutputMap};

verus! {

/// A line and a column in generated code, both from 0.
#[derive(Clone, Copy, Debug, PartialEq, Eq, Hash, Structural)]
pub struct LineCol {
    pub line: u32,
    pub col: u32,
}

/// One step of emission.
#[derive(Clone, Copy, Debug, PartialEq, Eq, Structural)]
pub enum PlannedMapping {
    /// The following records come from the file with this index.
    Source(usize),
    /// The end of a run of mappings, with no source position.
    Boundary { dst_line: u32, dst_col: u32 },
    /// A mapping from a generated position to a source line and a UTF-16
    /// column, for the source position `pos`.
    Token { dst_line: u32, dst_col: u32, src_line: u32, src_col: u32, pos: BytePos },
}

/// `pos` lies in `[start, end)` of the file with index `cur`.
pub open spec fn in_file(sm: SourceMap, cur: int, pos: BytePos) -> bool {
    0 <= cur < sm.files@.len() && sm.files@[cur].start_pos.0 <= pos.0 && pos.0 < sm.files@[cur].end_pos.0
}

/// What one input pair emits, given the current file and the previous
/// generated line: the new current file, the new previous line, and the
/// steps emitted.
pub open spec fn plan_step(
    sm: SourceMap,
    skip: Seq<bool>,
    cols: Seq<bool>,
    cur: int,
    prev: int,
    pos: BytePos,
    lc: LineCol,
) -> (int, int, Seq<PlannedMapping>) {
    if pos.spec_is_reserved_for_comments() || (lc.line == 0 && lc.col == 0 && pos.0 == 0) {
        (cur, prev, seq![])
    } else if pos.0 == u32::MAX {
        (cur, prev, seq![PlannedMapping::Boundary { dst_line: lc.line, dst_col: lc.col }])
    } else {
        let stay = in_file(sm, cur, pos);
        let fi = if stay { cur } else { sm.file_index(pos) };
        if !stay && (fi < 0 || skip[fi]) {
            (cur, prev, seq![])
        } else {
            let pre = if stay { seq![] } else { seq![PlannedMapping::Source(fi as usize)] };
            let f = *sm.files@[fi];
            let a = line_index_of(f, pos.0 as int);
            if skip[fi] || (!cols[fi] && lc.line == prev) || a < 0 {
                (fi, prev, pre)
            } else {
                let col = utf16_offset(f, pos.0 as int) - utf16_offset(f, f.lines@[a].0 as int);
                (
                    fi,
                    lc.line as int,
                    pre.push(
                        PlannedMapping::Token {
                            dst_line: lc.line,
                            dst_col: lc.col,
                            src_line: a as u32,
                            src_col: col as u32,
                            pos,
                        },
                    ),
                )
            }
        }
    }
}

/// The steps emitted for the first `n` input pairs, with the current file
/// and the previous generated line after them.
pub open spec fn plan_upto(
    sm: SourceMap,
    skip: Seq<bool>,
    cols: Seq<bool>,
    ms: Seq<(BytePos, LineCol)>,
    n: int,
) -> (int, int, Seq<PlannedMapping>)
    decreases n,
{
    if n <= 0 {
        (-1, u32::MAX as int, seq![])
    } else {
        let (cur, prev, out) = plan_upto(sm, skip, cols, ms, n - 1);
        let (cur2, prev2, more) = plan_step(sm, skip, cols, cur, prev, ms[n - 1].0, ms[n - 1].1);
        (cur2, prev2, out + more)
    }
}

/// Every input position that falls in a file starts a character there.
pub open spec fn positions_on_boundaries(sm: SourceMap, ms: Seq<(BytePos, LineCol)>) -> bool {
    forall|i: int|
        0 <= i < ms.len() && sm.file_index(#[trigger] ms[i].0) >= 0 ==> sm.files@[sm.file_index(ms[i].0)].is_boundary(
            ms[i].0.0 as int,
        )
}

impl SourceMap {
    /// The steps that emitting `mappings` takes, given for each file
    /// whether it is skipped (`skip`) and whether it keeps more than one
    /// mapping per generated line (`emit_columns`).
    pub fn plan_mappings(&self, mappings: &[(BytePos, LineCol)], skip: &Vec<bool>, emit_columns: &Vec<bool>) -> (r: Vec<PlannedMapping>)
        requires
            self.wf(),
            skip@.len() == self.files@.len(),
            emit_columns@.len() == self.files@.len(),
            positions_on_boundaries(*self, mappings@),
        ensures
            r@ == plan_upto(*self, skip@, emit_columns@, mappings@, mappings@.len() as int).2,
    {
        let mut out: Vec<PlannedMapping> = Vec::new();
        let mut cur: Option<usize> = None;
        let mut prev_dst_line: u32 = u32::MAX;
        let mut ch_state = ByteToCharPosState::default();
        let mut line_state = ByteToCharPosState::default();
        let mut i: usize = 0;
        while i < mappings.len()
            invariant
                self.wf(),
                skip@.len() == self.files@.len(),
                emit_columns@.len() == self.files@.len(),
                positions_on_boundaries(*self, mappings@),
                i <= mappings@.len(),
                ({
                    let (c, p, o) = plan_upto(*self, skip@, emit_columns@, mappings@, i as int);
                    &&& out@ == o
                    &&& p == prev_dst_line
                    &&& match cur {
                        Some(k) => c == k && k < self.files@.len(),
                        None => c == -1,
                    }
                }),
                cur matches Some(k) ==> ch_state.valid_for(*self.files@[k as int]) && line_state.valid_for(
                    *self.files@[k as int],
                ),
            decreases mappings@.len() - i,
        {
            let (pos, lc) = mappings[i];
            proof {
                assert(mappings@[i as int] == (pos, lc));
                assert(mappings@[i as int].0 == pos);
            }
            self.plan_one(pos, lc, skip, emit_columns, &mut cur, &mut prev_dst_line, &mut ch_state, &mut line_state, &mut out);
            i = i + 1;
        }
        out
    }

    /// One step of `plan_mappings`: the input pair `(pos, lc)`, with the
    /// current file, the previous generated line and the two cursors.
    #[verifier::rlimit(50)]
    fn plan_one(
        &self,
        pos: BytePos,
        lc: LineCol,
        skip: &Vec<bool>,
        emit_columns: &Vec<bool>,
        cur: &mut Option<usize>,
        prev_dst_line: &mut u32,
        ch_state: &mut ByteToCharPosState,
        line_state: &mut ByteToCharPosState,
        out: &mut Vec<PlannedMapping>,
    )
        requires
            self.wf(),
            skip@.len() == self.files@.len(),
            emit_columns@.len() == self.files@.len(),
            self.file_index(pos) >= 0 ==> self.files@[self.file_index(pos)].is_boundary(pos.0 as int),
            *old(cur) matches Some(k) ==> k < self.files@.len() && old(ch_state).valid_for(*self.files@[k as int])
                && old(line_state).valid_for(*self.files@[k as int]),
        ensures
            ({
                let c = match *old(cur) {
                    Some(k) => k as int,
                    None => -1,
                };
                let (c2, prev2, more) = plan_step(*self, skip@, emit_columns@, c, *old(prev_dst_line) as int, pos, lc);
                &&& final(out)@ == old(out)@ + more
                &&& *final(prev_dst_line) == prev2
                &&& match *final(cur) {
                    Some(k) => c2 == k && k < self.files@.len(),
                    None => c2 == -1,
                }
            }),
            *final(cur) matches Some(k) ==> final(ch_state).valid_for(*self.files@[k as int]) && final(line_state).valid_for(
                *self.files@[k as int],
            ),
    {
        let ghost prev_out = out@;
        if pos.is_reserved_for_comments() || (lc.line == 0 && lc.col == 0 && pos.is_dummy()) {
            assert(out@ =~= prev_out + seq![]);
            return;
        }
        if pos.0 == u32::MAX {
            out.push(PlannedMapping::Boundary { dst_line: lc.line, dst_col: lc.col });
            return;
        }
        proof {
            self.lemma_starts_sorted();
            self.lemma_file_index(pos);
        }
        let stay = match *cur {
            Some(k) => self.files[k].start_pos.0 <= pos.0 && pos.0 < self.files[k].end_pos.0,
            None => false,
        };
        let fi: usize = if stay {
            let k = match *cur {
                Some(k) => k,
                None => 0,
            };
            proof {
                assert(self.files@[k as int].wf());
                self.lemma_file_index_of_member(k as int, pos);
                assert(self.file_index(pos) == k);
            }
            k
        } else {
            match Self::lookup_index(&self.files, pos) {
                Some(k) => {
                    if skip[k] {
                        assert(out@ =~= prev_out + seq![]);
                        return;
                    }
                    out.push(PlannedMapping::Source(k));
                    *cur = Some(k);
                    *ch_state = ByteToCharPosState::default();
                    *line_state = ByteToCharPosState::default();
                    proof {
                        ch_state.lemma_fresh_valid(&*self.files@[k as int]);
                        line_state.lemma_fresh_valid(&*self.files@[k as int]);
                        assert(self.file_index(pos) == k);
                    }
                    k
                },
                None => {
                    assert(out@ =~= prev_out + seq![]);
                    return;
                },
            }
        };
        let ghost mid_out = out@;
        let f = &self.files[fi];
        proof {
            assert(self.file_index(pos) == fi);
            assert(f.wf());
            f.lemma_lines();
            crate::lookup::lemma_line_index(&**f, pos.0 as int);
        }
        if skip[fi] || (!emit_columns[fi] && lc.line == *prev_dst_line) {
            return;
        }
        match f.lookup_line(pos) {
            Some(line) => {
                proof {
                    lemma_line_index_unique(&**f, pos.0 as int, line as int);
                    assert(f.lines@[0] == f.start_pos);
                    assert(f.is_boundary(f.lines@[line as int].0 as int));
                    lemma_extra_diff(&**f, f.lines@[line as int].0 as int, pos.0 as int);
                    lemma_extra_diff(&**f, f.start_pos.0 as int, f.lines@[line as int].0 as int);
                }
                let linebpos = f.lines[line];
                let linechpos = linebpos.0 - calc_utf16_offset(f, linebpos, line_state);
                let chpos = pos.0 - calc_utf16_offset(f, pos, ch_state);
                let col = chpos - linechpos;
                out.push(
                    PlannedMapping::Token { dst_line: lc.line, dst_col: lc.col, src_line: line as u32, src_col: col, pos },
                );
                *prev_dst_line = lc.line;
            },
            None => {},
        }
    }

    /// The index of the file of `pos` in `files`.
    fn lookup_index(files: &Vec<std::rc::Rc<SourceFile>>, pos: BytePos) -> (r: Option<usize>)
        requires
            crate::lookup::starts_sorted(files@),
        ensures
            r matches Some(k) ==> k == crate::source_map::file_index_in(files@, pos),
            r is None <==> crate::source_map::file_index_in(files@, pos) < 0,
    {
        if pos.is_dummy() {
            return None;
        }
        let mut lo: usize = 0;
        let mut hi: usize = files.len();
        while lo < hi
            invariant
                lo <= hi <= files@.len(),
                crate::lookup::starts_sorted(files@),
                forall|i: int| 0 <= i < lo ==> #[trigger] files@[i].start_pos.0 <= pos.0,
                forall|i: int| hi <= i < files@.len() ==> #[trigger] files@[i].start_pos.0 > pos.0,
            decreases hi - lo,
        {
            let mid = lo + (hi - lo) / 2;
            if files[mid].start_pos.0 <= pos.0 {
                lo = mid + 1;
            } else {
                hi = mid;
            }
        }
        proof {
            crate::lookup::lemma_last_file_partition(files@, pos.0 as int, lo as int, files@.len() as int);
        }
        if lo == 0 || pos.0 > files[lo - 1].end_pos.0 {
            None
        } else {
            Some(lo - 1)
        }
    }
}


/// The decisions that a caller makes about each file and position while a
/// source map is emitted.
pub trait SourceMapGenConfig {
    /// What `file_name_to_source` answers for a file name.
    spec fn spec_file_name_to_source(&self, f: FileNameKey) -> Seq<char>;

    /// What `name_for_bytepos` answers for a position.
    spec fn spec_name_for_bytepos(&self, bpos: BytePos) -> Option<Seq<char>>;

    /// What `inline_sources_content` answers for a file name.
    spec fn spec_inline_sources_content(&self, f: FileNameKey) -> bool;

    /// What `emit_columns` answers for a file name.
    spec fn spec_emit_columns(&self, f: FileNameKey) -> bool;

    /// What `skip` answers for a file name.
    spec fn spec_skip(&self, f: FileNameKey) -> bool;

    /// What `ignore_list` answers for a file name.
    spec fn spec_ignore_list(&self, f: FileNameKey) -> bool;

    /// The path to put in the map's `sources` for a file; never its content.
    fn file_name_to_source(&self, f: &FileName) -> (r: String)
        ensures
            r@ == self.spec_file_name_to_source(f@),
    ;

    /// The identifier that starts at `bpos`, if any (`default_name_for_bytepos`
    /// gives none).
    fn name_for_bytepos(&self, bpos: BytePos) -> (r: Option<String>)
        ensures
            match r {
                Some(s) => self.spec_name_for_bytepos(bpos) == Some(s@),
                None => self.spec_name_for_bytepos(bpos) is None,
            },
    ;

    /// Whether the map carries the file's text (see
    /// `default_inline_sources_content`).
    fn inline_sources_content(&self, f: &FileName) -> (r: bool)
        ensures
            r == self.spec_inline_sources_content(f@),
    ;

    /// Whether a generated line may hold more than one mapping (by default
    /// yes).
    fn emit_columns(&self, f: &FileName) -> (r: bool)
        ensures
            r == self.spec_emit_columns(f@),
    ;

    /// Whether mappings into the file are left out (see `default_skip`).
    fn skip(&self, f: &FileName) -> (r: bool)
        ensures
            r == self.spec_skip(f@),
    ;

    /// Whether the file goes in the map's `ignoreList` (see
    /// `default_ignore_list`).
    fn ignore_list(&self, f: &FileName) -> (r: bool)
        ensures
            r == self.spec_ignore_list(f@),
    ;
}

/// By default a file's text goes in the map unless it is on disk, named by
/// the user, or fetched.
pub open spec fn spec_default_inline_sources_content(f: FileNameKey) -> bool {
    match f {
        FileNameKey::Real(_) | FileNameKey::Custom(_) | FileNameKey::Url(_) => false,
        _ => true,
    }
}

/// By default internal files are skipped.
pub open spec fn spec_default_skip(f: FileNameKey) -> bool {
    f is Internal
}

/// By default anonymous and internal files are ignored.
pub open spec fn spec_default_ignore_list(f: FileNameKey) -> bool {
    f is Anon || f is Internal
}

pub fn default_inline_sources_content(f: &FileName) -> (r: bool)
    ensures
        r == spec_default_inline_sources_content(f@),
{
    match f {
        FileName::Real(_) | FileName::Custom(_) | FileName::Url(_) => false,
        _ => true,
    }
}

pub fn default_skip(f: &FileName) -> (r: bool)
    ensures
        r == spec_default_skip(f@),
{
    match f {
        FileName::Internal(_) => true,
        _ => false,
    }
}

pub fn default_ignore_list(f: &FileName) -> (r: bool)
    ensures
        r == spec_default_ignore_list(f@),
{
    match f {
        FileName::Anon | FileName::Internal(_) => true,
        _ => false,
    }
}

/// The configuration that names each source by its display name.
#[derive(Debug, Clone)]
pub struct DefaultSourceMapGenConfig;

impl SourceMapGenConfig for DefaultSourceMapGenConfig {
    open spec fn spec_file_name_to_source(&self, f: FileNameKey) -> Seq<char> {
        crate::file_name::display_of(f)
    }

    open spec fn spec_name_for_bytepos(&self, bpos: BytePos) -> Option<Seq<char>> {
        None
    }

    open spec fn spec_inline_sources_content(&self, f: FileNameKey) -> bool {
        spec_default_inline_sources_content(f)
    }

    open spec fn spec_emit_columns(&self, f: FileNameKey) -> bool {
        true
    }

    open spec fn spec_skip(&self, f: FileNameKey) -> bool {
        spec_default_skip(f)
    }

    open spec fn spec_ignore_list(&self, f: FileNameKey) -> bool {
        spec_default_ignore_list(f)
    }

    fn file_name_to_source(&self, f: &FileName) -> (r: String) {
        f.to_display_string()
    }

    fn name_for_bytepos(&self, bpos: BytePos) -> (r: Option<String>) {
        None
    }

    fn inline_sources_content(&self, f: &FileName) -> (r: bool) {
        default_inline_sources_content(f)
    }

    fn emit_columns(&self, f: &FileName) -> (r: bool) {
        true
    }

    fn skip(&self, f: &FileName) -> (r: bool) {
        default_skip(f)
    }

    fn ignore_list(&self, f: &FileName) -> (r: bool) {
        default_ignore_list(f)
    }
}

/// A configuration that answers as `inner` does, but with the given choice
/// of emitting columns for every file.
#[derive(Debug, Clone)]
pub struct EmitColumns<C> {
    pub inner: C,
    pub emit_columns: bool,
}

impl<C: SourceMapGenConfig> SourceMapGenConfig for EmitColumns<C> {
    open spec fn spec_file_name_to_source(&self, f: FileNameKey) -> Seq<char> {
        self.inner.spec_file_name_to_source(f)
    }

    open spec fn spec_name_for_bytepos(&self, bpos: BytePos) -> Option<Seq<char>> {
        self.inner.spec_name_for_bytepos(bpos)
    }

    open spec fn spec_inline_sources_content(&self, f: FileNameKey) -> bool {
        self.inner.spec_inline_sources_content(f)
    }

    open spec fn spec_emit_columns(&self, f: FileNameKey) -> bool {
        self.emit_columns
    }

    open spec fn spec_skip(&self, f: FileNameKey) -> bool {
        self.inner.spec_skip(f)
    }

    open spec fn spec_ignore_list(&self, f: FileNameKey) -> bool {
        self.inner.spec_ignore_list(f)
    }

    fn file_name_to_source(&self, f: &FileName) -> (r: String) {
        self.inner.file_name_to_source(f)
    }

    fn name_for_bytepos(&self, bpos: BytePos) -> (r: Option<String>) {
        self.inner.name_for_bytepos(bpos)
    }

    fn inline_sources_content(&self, f: &FileName) -> (r: bool) {
        self.inner.inline_sources_content(f)
    }

    fn emit_columns(&self, f: &FileName) -> (r: bool) {
        self.emit_columns
    }

    fn skip(&self, f: &FileName) -> (r: bool) {
        self.inner.skip(f)
    }

    fn ignore_list(&self, f: &FileName) -> (r: bool) {
        self.inner.ignore_list(f)
    }
}

/// swc_sourcemap's builder of source maps.
#[verifier::external_type_specification]
#[verifier::external_body]
pub struct ExSourceMapBuilder(SourceMapBuilder);

/// swc_sourcemap's source map.
#[verifier::external_type_specification]
#[verifier::external_body]
pub struct ExOutputMap(OutputMap);

/// The raw tokens a builder holds, in the order they were added: generated
/// line and column, source line and column, source id and name id.
pub uninterp spec fn builder_tokens(b: SourceMapBuilder) -> Seq<(u32, u32, u32, u32, u32, u32)>;

/// The source names a builder holds, by id.
pub uninterp spec fn builder_sources(b: SourceMapBuilder) -> Seq<Seq<char>>;

/// The id a builder gives each source name it holds.
pub uninterp spec fn builder_source_ids(b: SourceMapBuilder) -> Map<Seq<char>, u32>;

/// The names a builder holds, by id.
pub uninterp spec fn builder_names(b: SourceMapBuilder) -> Seq<Seq<char>>;

/// The id a builder gives each name it holds.
pub uninterp spec fn builder_name_ids(b: SourceMapBuilder) -> Map<Seq<char>, u32>;

/// The source contents a builder holds, by source id.
pub uninterp spec fn builder_contents(b: SourceMapBuilder) -> Map<u32, Seq<char>>;

/// The source ids a builder puts in the ignore list.
pub uninterp spec fn builder_ignored(b: SourceMapBuilder) -> Set<u32>;

/// The raw tokens of a source map, in the order the map keeps them.
pub uninterp spec fn map_tokens(m: OutputMap) -> Seq<(u32, u32, u32, u32, u32, u32)>;

/// The source names of a source map, by id.
pub uninterp spec fn map_sources(m: OutputMap) -> Seq<Seq<char>>;

/// The names of a source map, by id.
pub uninterp spec fn map_names(m: OutputMap) -> Seq<Seq<char>>;

/// The source contents of a source map, by source id.
pub uninterp spec fn map_contents(m: OutputMap) -> Map<u32, Seq<char>>;

/// The source ids in a source map's ignore list.
pub uninterp spec fn map_ignored(m: OutputMap) -> Set<u32>;

/// The tokens that composing a map's tokens `orig` with the tokens `adj` of
/// a map of the same code gives.
pub uninterp spec fn adjusted_tokens(
    orig: Seq<(u32, u32, u32, u32, u32, u32)>,
    adj: Seq<(u32, u32, u32, u32, u32, u32)>,
) -> Seq<(u32, u32, u32, u32, u32, u32)>;

/// Lines and columns stay below this bound where maps are composed.
pub const COORD_LIMIT: u32 = 1073741824;

pub open spec fn no_ids(m: Map<Seq<char>, u32>) -> bool {
    m == Map::<Seq<char>, u32>::empty()
}

pub open spec fn no_contents(m: Map<u32, Seq<char>>) -> bool {
    m == Map::<u32, Seq<char>>::empty()
}

pub open spec fn no_ignored(s: Set<u32>) -> bool {
    s == Set::<u32>::empty()
}

/// Relies on `SourceMapBuilder::new`: a builder that holds nothing.
#[verifier::external_body]
fn builder_new() -> (r: SourceMapBuilder)
    ensures
        builder_tokens(r).len() == 0,
        builder_sources(r).len() == 0,
        no_ids(builder_source_ids(r)),
        builder_names(r).len() == 0,
        no_ids(builder_name_ids(r)),
        no_contents(builder_contents(r)),
        no_ignored(builder_ignored(r)),
{
    SourceMapBuilder::new(None)
}

/// Relies on `SourceMapBuilder::add_source`: a name it holds keeps its id;
/// a new one gets the next id and is appended.
#[verifier::external_body]
fn builder_add_source(b: &mut SourceMapBuilder, src: String) -> (r: u32)
    requires
        builder_sources(*old(b)).len() < u32::MAX,
    ensures
        builder_source_ids(*old(b)).contains_key(src@) ==> r == builder_source_ids(*old(b))[src@]
            && builder_sources(*final(b)) == builder_sources(*old(b)) && builder_source_ids(*final(b))
            == builder_source_ids(*old(b)),
        !builder_source_ids(*old(b)).contains_key(src@) ==> r == builder_sources(*old(b)).len()
            && builder_sources(*final(b)) == builder_sources(*old(b)).push(src@) && builder_source_ids(*final(b))
            == builder_source_ids(*old(b)).insert(src@, r),
        builder_tokens(*final(b)) == builder_tokens(*old(b)),
        builder_names(*final(b)) == builder_names(*old(b)),
        builder_name_ids(*final(b)) == builder_name_ids(*old(b)),
        builder_contents(*final(b)) == builder_contents(*old(b)),
        builder_ignored(*final(b)) == builder_ignored(*old(b)),
{
    b.add_source(src.into())
}

/// Relies on `SourceMapBuilder::add_to_ignore_list`: the id joins the set.
#[verifier::external_body]
fn builder_add_to_ignore_list(b: &mut SourceMapBuilder, src_id: u32)
    ensures
        builder_ignored(*final(b)) == builder_ignored(*old(b)).insert(src_id),
        builder_tokens(*final(b)) == builder_tokens(*old(b)),
        builder_sources(*final(b)) == builder_sources(*old(b)),
        builder_source_ids(*final(b)) == builder_source_ids(*old(b)),
        builder_names(*final(b)) == builder_names(*old(b)),
        builder_name_ids(*final(b)) == builder_name_ids(*old(b)),
        builder_contents(*final(b)) == builder_contents(*old(b)),
{
    b.add_to_ignore_list(src_id)
}

/// Relies on `SourceMapBuilder::set_source_contents`, which indexes its
/// table by the id and so needs a registered one.
#[verifier::external_body]
fn builder_set_source_contents(b: &mut SourceMapBuilder, src_id: u32, contents: String)
    requires
        src_id < builder_sources(*old(b)).len(),
        src_id != u32::MAX,
    ensures
        builder_contents(*final(b)) == builder_contents(*old(b)).insert(src_id, contents@),
        builder_tokens(*final(b)) == builder_tokens(*old(b)),
        builder_sources(*final(b)) == builder_sources(*old(b)),
        builder_source_ids(*final(b)) == builder_source_ids(*old(b)),
        builder_names(*final(b)) == builder_names(*old(b)),
        builder_name_ids(*final(b)) == builder_name_ids(*old(b)),
        builder_ignored(*final(b)) == builder_ignored(*old(b)),
{
    b.set_source_contents(src_id, Some(contents.into()))
}

/// Relies on `SourceMapBuilder::add_name`: a name it holds keeps its id; a
/// new one gets the next id and is appended.
#[verifier::external_body]
fn builder_add_name(b: &mut SourceMapBuilder, name: String) -> (r: u32)
    requires
        builder_names(*old(b)).len() < u32::MAX,
    ensures
        builder_name_ids(*old(b)).contains_key(name@) ==> r == builder_name_ids(*old(b))[name@]
            && builder_names(*final(b)) == builder_names(*old(b)) && builder_name_ids(*final(b))
            == builder_name_ids(*old(b)),
        !builder_name_ids(*old(b)).contains_key(name@) ==> r == builder_names(*old(b)).len()
            && builder_names(*final(b)) == builder_names(*old(b)).push(name@) && builder_name_ids(*final(b))
            == builder_name_ids(*old(b)).insert(name@, r),
        builder_tokens(*final(b)) == builder_tokens(*old(b)),
        builder_sources(*final(b)) == builder_sources(*old(b)),
        builder_source_ids(*final(b)) == builder_source_ids(*old(b)),
        builder_contents(*final(b)) == builder_contents(*old(b)),
        builder_ignored(*final(b)) == builder_ignored(*old(b)),
{
    b.add_name(name.into())
}

/// Relies on `SourceMapBuilder::add_raw`: one token more at the end, with
/// `u32::MAX` for a missing source or name.
#[verifier::external_body]
fn builder_add_raw(
    b: &mut SourceMapBuilder,
    dst_line: u32,
    dst_col: u32,
    src_line: u32,
    src_col: u32,
    source: Option<u32>,
    name: Option<u32>,
)
    ensures
        builder_tokens(*final(b)) == builder_tokens(*old(b)).push(
            (
                dst_line,
                dst_col,
                src_line,
                src_col,
                match source {
                    Some(s) => s,
                    None => u32::MAX,
                },
                match name {
                    Some(n) => n,
                    None => u32::MAX,
                },
            ),
        ),
        builder_sources(*final(b)) == builder_sources(*old(b)),
        builder_source_ids(*final(b)) == builder_source_ids(*old(b)),
        builder_names(*final(b)) == builder_names(*old(b)),
        builder_name_ids(*final(b)) == builder_name_ids(*old(b)),
        builder_contents(*final(b)) == builder_contents(*old(b)),
        builder_ignored(*final(b)) == builder_ignored(*old(b)),
{
    b.add_raw(dst_line, dst_col, src_line, src_col, source, name, false);
}

/// Relies on `SourceMapBuilder::into_sourcemap` and `SourceMap::new`: the
/// map holds the builder's tokens, sorted by generated line and column, and
/// its sources, names, contents and ignore list.
#[verifier::external_body]
fn builder_into_sourcemap(b: SourceMapBuilder) -> (r: OutputMap)
    ensures
        map_tokens(r).to_multiset() == builder_tokens(b).to_multiset(),
        forall|i: int, j: int|
            0 <= i < j < map_tokens(r).len() ==> (map_tokens(r)[i].0 < map_tokens(r)[j].0 || (map_tokens(r)[i].0
                == map_tokens(r)[j].0 && map_tokens(r)[i].1 <= map_tokens(r)[j].1)),
        map_sources(r) == builder_sources(b),
        map_names(r) == builder_names(b),
        map_contents(r) == builder_contents(b),
        map_ignored(r) == builder_ignored(b),
{
    b.into_sourcemap()
}

/// Relies on `SourceMap::adjust_mappings`: the tokens of `orig` are composed
/// with those of `adjustment`, as a function of the two token lists, and
/// nothing else of `orig` changes. Its line and column arithmetic is done
/// in `i32`, hence the bounds.
#[verifier::external_body]
fn output_adjust_mappings(orig: &mut OutputMap, adjustment: &OutputMap)
    requires
        forall|i: int|
            0 <= i < map_tokens(*old(orig)).len() ==> (#[trigger] map_tokens(*old(orig))[i]).0 < COORD_LIMIT
                && map_tokens(*old(orig))[i].1 < COORD_LIMIT,
        forall|i: int| 0 <= i < map_tokens(*adjustment).len() ==> token_bounded(#[trigger] map_tokens(*adjustment)[i]),
    ensures
        map_tokens(*final(orig)) == adjusted_tokens(map_tokens(*old(orig)), map_tokens(*adjustment)),
        map_sources(*final(orig)) == map_sources(*old(orig)),
        map_names(*final(orig)) == map_names(*old(orig)),
        map_contents(*final(orig)) == map_contents(*old(orig)),
        map_ignored(*final(orig)) == map_ignored(*old(orig)),
{
    orig.adjust_mappings(adjustment)
}

/// Relies on `SourceMap::get_token` and `Token::get_raw_token`: the raw
/// token at `idx`, when the map has that many.
#[verifier::external_body]
fn map_token_at(m: &OutputMap, idx: usize) -> (r: Option<(u32, u32, u32, u32, u32, u32)>)
    ensures
        idx < map_tokens(*m).len() ==> r == Some(map_tokens(*m)[idx as int]),
        idx >= map_tokens(*m).len() ==> r is None,
{
    m.get_token(idx).map(
        |t: swc_sourcemap::Token<'_>|
            {
                let raw = t.get_raw_token();
                (raw.dst_line, raw.dst_col, raw.src_line, raw.src_col, raw.src_id, raw.name_id)
            },
    )
}

/// The generated lines and columns of a map's tokens are below
/// `COORD_LIMIT`.
pub open spec fn map_bounded(o: OutputMap) -> bool {
    forall|i: int|
        0 <= i < map_tokens(o).len() ==> (#[trigger] map_tokens(o)[i]).0 < COORD_LIMIT && map_tokens(o)[i].1
            < COORD_LIMIT
}

/// Whether the generated lines and columns of `o`'s tokens are below
/// `COORD_LIMIT`.
pub fn check_map_bounded(o: &OutputMap) -> (r: bool)
    ensures
        r ==> map_bounded(*o),
        map_bounded(*o) && map_tokens(*o).len() < usize::MAX ==> r,
{
    let mut idx: usize = 0;
    loop
        invariant
            forall|i: int| 0 <= i < idx ==> (#[trigger] map_tokens(*o)[i]).0 < COORD_LIMIT && map_tokens(*o)[i].1 < COORD_LIMIT,
            idx <= map_tokens(*o).len(),
        decreases map_tokens(*o).len() - idx,
    {
        match map_token_at(o, idx) {
            Some(t) => {
                if t.0 >= COORD_LIMIT || t.1 >= COORD_LIMIT || idx == usize::MAX {
                    return false;
                }
                idx = idx + 1;
            },
            None => {
                return true;
            },
        }
    }
}

/// Whether the generated lines and columns of `ms` are below `COORD_LIMIT`.
pub fn check_mappings_bounded(ms: &[(BytePos, LineCol)]) -> (r: bool)
    ensures
        r == mappings_bounded(ms@),
{
    let mut i: usize = 0;
    while i < ms.len()
        invariant
            i <= ms@.len(),
            forall|k: int| 0 <= k < i ==> (#[trigger] ms@[k]).1.line < COORD_LIMIT && ms@[k].1.col < COORD_LIMIT,
        decreases ms@.len() - i,
    {
        if ms[i].1.line >= COORD_LIMIT || ms[i].1.col >= COORD_LIMIT {
            return false;
        }
        i = i + 1;
    }
    true
}

/// All four coordinates of a token are below `COORD_LIMIT`.
pub open spec fn token_bounded(t: (u32, u32, u32, u32, u32, u32)) -> bool {
    t.0 < COORD_LIMIT && t.1 < COORD_LIMIT && t.2 < COORD_LIMIT && t.3 < COORD_LIMIT
}

/// Every generated line and column of `ms` is below `COORD_LIMIT`.
pub open spec fn mappings_bounded(ms: Seq<(BytePos, LineCol)>) -> bool {
    forall|i: int| 0 <= i < ms.len() ==> (#[trigger] ms[i]).1.line < COORD_LIMIT && ms[i].1.col < COORD_LIMIT
}

/// The coordinates of a step: generated ones below `COORD_LIMIT`, source
/// ones below `src_limit`.
pub open spec fn record_bounded(rec: PlannedMapping, src_limit: int) -> bool {
    match rec {
        PlannedMapping::Source(_) => true,
        PlannedMapping::Boundary { dst_line, dst_col } => dst_line < COORD_LIMIT && dst_col < COORD_LIMIT,
        PlannedMapping::Token { dst_line, dst_col, src_line, src_col, pos } => dst_line < COORD_LIMIT && dst_col
            < COORD_LIMIT && src_line < src_limit && src_col < src_limit,
    }
}

/// What the caller's configuration answered at one step of emission: the
/// source name, whether the source is ignored, whether its text is inlined,
/// and the name at the position.
pub type Answer = (Seq<char>, bool, bool, Option<Seq<char>>);

/// What the builder holds: tokens, sources and their ids, names and their
/// ids, contents, ignored sources, and the current source id.
pub type Emitted = (
    Seq<(u32, u32, u32, u32, u32, u32)>,
    Seq<Seq<char>>,
    Map<Seq<char>, u32>,
    Seq<Seq<char>>,
    Map<Seq<char>, u32>,
    Map<u32, Seq<char>>,
    Set<u32>,
    u32,
);

/// The id that a list with the given ids gives `x`.
pub open spec fn id_for(ids: Map<Seq<char>, u32>, list: Seq<Seq<char>>, x: Seq<char>) -> u32 {
    if ids.contains_key(x) {
        ids[x]
    } else {
        list.len() as u32
    }
}

/// What the builder holds after the first `n` steps of `plan`, with the
/// configuration's answers `ans` at each step.
pub open spec fn emit_upto(sm: SourceMap, plan: Seq<PlannedMapping>, ans: Seq<Answer>, n: int) -> Emitted
    decreases n,
{
    if n <= 0 {
        (seq![], seq![], Map::empty(), seq![], Map::empty(), Map::empty(), Set::empty(), 0u32)
    } else {
        let (toks, srcs, sids, names, nids, conts, ign, cur) = emit_upto(sm, plan, ans, n - 1);
        let (src, ignore, inline, name) = ans[n - 1];
        match plan[n - 1] {
            PlannedMapping::Source(k) => if k < sm.files@.len() {
                let id = id_for(sids, srcs, src);
                let srcs2 = if sids.contains_key(src) { srcs } else { srcs.push(src) };
                let sids2 = if sids.contains_key(src) { sids } else { sids.insert(src, id) };
                let ign2 = if ignore { ign.insert(id) } else { ign };
                let conts2 = if inline && id != u32::MAX { conts.insert(id, sm.files@[k as int].src@) } else { conts };
                (toks, srcs2, sids2, names, nids, conts2, ign2, id)
            } else {
                (toks, srcs, sids, names, nids, conts, ign, cur)
            },
            PlannedMapping::Boundary { dst_line, dst_col } => (
                toks.push((dst_line, dst_col, 0u32, 0u32, cur, u32::MAX)),
                srcs,
                sids,
                names,
                nids,
                conts,
                ign,
                cur,
            ),
            PlannedMapping::Token { dst_line, dst_col, src_line, src_col, pos } => match name {
                Some(x) => {
                    let nid = id_for(nids, names, x);
                    let names2 = if nids.contains_key(x) { names } else { names.push(x) };
                    let nids2 = if nids.contains_key(x) { nids } else { nids.insert(x, nid) };
                    (toks.push((dst_line, dst_col, src_line, src_col, cur, nid)), srcs, sids, names2, nids2, conts, ign, cur)
                },
                None => (toks.push((dst_line, dst_col, src_line, src_col, cur, u32::MAX)), srcs, sids, names, nids, conts, ign, cur),
            },
        }
    }
}

/// The line index of `pos` in the file `f`.
pub open spec fn line_index_at(f: &SourceFile, pos: int) -> int {
    line_index_of(*f, pos)
}

/// Lines start at least one position apart.
proof fn lemma_line_start_spacing(f: &SourceFile, k: int)
    requires
        f.wf(),
        0 <= k < f.lines@.len(),
    ensures
        f.lines@[k].0 >= f.start_pos.0 + k,
    decreases k,
{
    f.lemma_lines();
    if k > 0 {
        lemma_line_start_spacing(f, k - 1);
    }
}

/// One step of planning adds at most two records, each with its generated
/// coordinates from the input and source coordinates below the next start
/// position.
proof fn lemma_plan_step_bounded(sm: SourceMap, skip: Seq<bool>, cols: Seq<bool>, cur: int, prev: int, pos: BytePos, lc: LineCol)
    requires
        sm.wf(),
        skip.len() == sm.files@.len(),
        cols.len() == sm.files@.len(),
        -1 <= cur < sm.files@.len(),
        sm.file_index(pos) >= 0 ==> sm.files@[sm.file_index(pos)].is_boundary(pos.0 as int),
    ensures
        plan_step(sm, skip, cols, cur, prev, pos, lc).2.len() <= 2,
        -1 <= plan_step(sm, skip, cols, cur, prev, pos, lc).0 < sm.files@.len(),
        lc.line < COORD_LIMIT && lc.col < COORD_LIMIT ==> forall|k: int|
            0 <= k < plan_step(sm, skip, cols, cur, prev, pos, lc).2.len() ==> record_bounded(
                #[trigger] plan_step(sm, skip, cols, cur, prev, pos, lc).2[k],
                sm.start_pos as int,
            ),
{
    sm.lemma_file_index(pos);
    if !(pos.spec_is_reserved_for_comments() || (lc.line == 0 && lc.col == 0 && pos.0 == 0)) && pos.0 != u32::MAX {
        let stay = in_file(sm, cur, pos);
        if stay {
            assert(sm.files@[cur].wf());
            sm.lemma_file_index_of_member(cur, pos);
        }
        let fi = sm.file_index(pos);
        if fi >= 0 {
            let f = sm.files@[fi];
            assert(f.wf());
            f.lemma_lines();
            crate::lookup::lemma_line_index(&*f, pos.0 as int);
            let a = line_index_at(&*f, pos.0 as int);
            if a >= 0 {
                lemma_line_start_spacing(&*f, a);
                assert(f.lines@[0] == f.start_pos);
                assert(f.is_boundary(f.lines@[a].0 as int));
                lemma_extra_diff(&*f, f.lines@[a].0 as int, pos.0 as int);
            }
        }
    }
}

/// The plan for a prefix of the input: at most two records per input
/// pair, all bounded when the input is.
proof fn lemma_plan_upto_bounded(sm: SourceMap, skip: Seq<bool>, cols: Seq<bool>, ms: Seq<(BytePos, LineCol)>, n: int)
    requires
        sm.wf(),
        skip.len() == sm.files@.len(),
        cols.len() == sm.files@.len(),
        positions_on_boundaries(sm, ms),
        0 <= n <= ms.len(),
    ensures
        plan_upto(sm, skip, cols, ms, n).2.len() <= 2 * n,
        -1 <= plan_upto(sm, skip, cols, ms, n).0 < sm.files@.len(),
        mappings_bounded(ms) ==> forall|k: int|
            0 <= k < plan_upto(sm, skip, cols, ms, n).2.len() ==> record_bounded(
                #[trigger] plan_upto(sm, skip, cols, ms, n).2[k],
                sm.start_pos as int,
            ),
    decreases n,
{
    if n > 0 {
        lemma_plan_upto_bounded(sm, skip, cols, ms, n - 1);
        let (c, p, o) = plan_upto(sm, skip, cols, ms, n - 1);
        assert(ms[n - 1].0 == ms[n - 1].0);
        lemma_plan_step_bounded(sm, skip, cols, c, p, ms[n - 1].0, ms[n - 1].1);
        let more = plan_step(sm, skip, cols, c, p, ms[n - 1].0, ms[n - 1].1).2;
        if mappings_bounded(ms) {
            assert(ms[n - 1].1.line < COORD_LIMIT);
            let all = plan_upto(sm, skip, cols, ms, n).2;
            assert(all == o + more);
            assert forall|k: int| 0 <= k < all.len() implies record_bounded(#[trigger] all[k], sm.start_pos as int) by {
                if k < o.len() {
                    assert(all[k] == o[k]);
                } else {
                    assert(all[k] == more[k - o.len()]);
                }
            }
        }
    }
}

/// Whether `c` skips each file of `sm`.
pub open spec fn skip_answers<C: SourceMapGenConfig>(sm: SourceMap, c: C) -> Seq<bool> {
    Seq::new(sm.files@.len(), |i: int| c.spec_skip(sm.files@[i].name@))
}

/// Whether `c` emits columns for each file of `sm`.
pub open spec fn cols_answers<C: SourceMapGenConfig>(sm: SourceMap, c: C) -> Seq<bool> {
    Seq::new(sm.files@.len(), |i: int| c.spec_emit_columns(sm.files@[i].name@))
}

/// The steps of emitting `ms` with the per-file decisions of `c`.
pub open spec fn config_plan<C: SourceMapGenConfig>(sm: SourceMap, c: C, ms: Seq<(BytePos, LineCol)>) -> Seq<PlannedMapping> {
    plan_upto(sm, skip_answers(sm, c), cols_answers(sm, c), ms, ms.len() as int).2
}

/// What `c` answers at one step: for a new run of records, the file's
/// source name and, with no upstream map, whether it is ignored and
/// inlined; for a record, with no upstream map, the name at its position.
pub open spec fn config_answer<C: SourceMapGenConfig>(sm: SourceMap, c: C, rec: PlannedMapping, with_orig: bool) -> Answer {
    match rec {
        PlannedMapping::Source(k) => if k < sm.files@.len() {
            let n = sm.files@[k as int].name@;
            (
                c.spec_file_name_to_source(n),
                !with_orig && c.spec_ignore_list(n),
                !with_orig && c.spec_inline_sources_content(n),
                None,
            )
        } else {
            (seq![], false, false, None)
        },
        PlannedMapping::Boundary { .. } => (seq![], false, false, None),
        PlannedMapping::Token { pos, .. } => (seq![], false, false, if with_orig {
            None
        } else {
            c.spec_name_for_bytepos(pos)
        }),
    }
}

/// What `c` answers at each step of `plan`.
pub open spec fn config_answers<C: SourceMapGenConfig>(sm: SourceMap, c: C, plan: Seq<PlannedMapping>, with_orig: bool) -> Seq<Answer> {
    plan.map_values(|rec: PlannedMapping| config_answer(sm, c, rec, with_orig))
}

/// What emission with the configuration's answers `ans` leaves in a map,
/// given the steps `plan`: `r` holds the planned tokens (in some order of
/// equal positions) with the sources, names, contents and ignore list the
/// answers lead to; with an upstream map `orig`, `r` is `orig` with its
/// tokens composed with those.
pub open spec fn emitted_as(sm: SourceMap, plan: Seq<PlannedMapping>, ans: Seq<Answer>, orig: Option<OutputMap>, r: OutputMap) -> bool {
    let (toks, srcs, sids, names, nids, conts, ign, cur) = emit_upto(sm, plan, ans, plan.len() as int);
    exists|t: Seq<(u32, u32, u32, u32, u32, u32)>|
        #![trigger t.to_multiset()]
        t.to_multiset() == toks.to_multiset() && match orig {
            None => map_tokens(r) == t && map_sources(r) == srcs && map_names(r) == names && map_contents(r) == conts
                && map_ignored(r) == ign,
            Some(o) => map_tokens(r) == adjusted_tokens(map_tokens(o), t) && map_sources(r) == map_sources(o)
                && map_names(r) == map_names(o) && map_contents(r) == map_contents(o) && map_ignored(r)
                == map_ignored(o),
        }
}

impl SourceMap {
    /// Emits a source map for `mappings`: each pair of a source position and
    /// a generated line and column becomes a record as `plan_mappings` says,
    /// with the decisions `config` makes for each file; a new run of records
    /// registers the file's source name, with its text and in the ignore
    /// list as `config` says when there is no upstream map, and each record
    /// carries the current source and, with no upstream map, the name
    /// `config` gives its position. With an upstream map `orig`, the result is
    /// `orig` composed with the new mappings.
    pub fn build_source_map<C: SourceMapGenConfig>(
        &self,
        mappings: &[(BytePos, LineCol)],
        orig: Option<OutputMap>,
        config: &C,
    ) -> (r: OutputMap)
        requires
            self.wf(),
            positions_on_boundaries(*self, mappings@),
            mappings@.len() < 0x7fff_ffff,
            orig matches Some(o) ==> mappings_bounded(mappings@) && self.start_pos <= COORD_LIMIT && map_bounded(o),
        ensures
            ({
                let plan = config_plan(*self, *config, mappings@);
                emitted_as(*self, plan, config_answers(*self, *config, plan, orig is Some), orig, r)
            }),
    {
        let mut skip: Vec<bool> = Vec::new();
        let mut cols: Vec<bool> = Vec::new();
        let mut i: usize = 0;
        while i < self.files.len()
            invariant
                i <= self.files@.len(),
                skip@.len() == i,
                cols@.len() == i,
                forall|k: int| 0 <= k < i ==> skip@[k] == config.spec_skip(#[trigger] self.files@[k].name@),
                forall|k: int| 0 <= k < i ==> cols@[k] == config.spec_emit_columns(#[trigger] self.files@[k].name@),
            decreases self.files@.len() - i,
        {
            skip.push(config.skip(&self.files[i].name));
            cols.push(config.emit_columns(&self.files[i].name));
            i = i + 1;
        }
        proof {
            assert(skip@ =~= skip_answers(*self, *config));
            assert(cols@ =~= cols_answers(*self, *config));
        }
        let plan = self.plan_mappings(mappings, &skip, &cols);
        proof {
            lemma_plan_upto_bounded(*self, skip@, cols@, mappings@, mappings@.len() as int);
        }
        let with_orig = orig.is_some();
        let mut builder = builder_new();
        let mut src_id: u32 = 0;
        let ghost mut ans: Seq<Answer> = seq![];
        let mut j: usize = 0;
        proof {
            assert(builder_tokens(builder) =~= seq![]);
            assert(builder_sources(builder) =~= seq![]);
            assert(builder_names(builder) =~= seq![]);
        }
        while j < plan.len()
            invariant
                self.wf(),
                j <= plan@.len(),
                plan@.len() <= 2 * mappings@.len(),
                mappings@.len() < 0x7fff_ffff,
                ans.len() == j,
                forall|k: int| 0 <= k < j ==> ans[k] == config_answer(*self, *config, #[trigger] plan@[k], with_orig),
                emit_upto(*self, plan@, ans, j as int) == (
                    builder_tokens(builder),
                    builder_sources(builder),
                    builder_source_ids(builder),
                    builder_names(builder),
                    builder_name_ids(builder),
                    builder_contents(builder),
                    builder_ignored(builder),
                    src_id,
                ),
                builder_sources(builder).len() <= j,
                builder_names(builder).len() <= j,
                forall|x: Seq<char>| #[trigger] builder_source_ids(builder).contains_key(x) ==> builder_source_ids(builder)[x] < builder_sources(builder).len(),
                src_id == 0 || src_id < builder_sources(builder).len(),
                with_orig == orig is Some,
                with_orig ==> forall|k: int| 0 <= k < plan@.len() ==> record_bounded(#[trigger] plan@[k], self.start_pos as int),
                with_orig ==> self.start_pos <= COORD_LIMIT,
                with_orig ==> forall|k: int| 0 <= k < builder_tokens(builder).len() ==> token_bounded(#[trigger] builder_tokens(builder)[k]),
            decreases plan@.len() - j,
        {
            let ghost before = emit_upto(*self, plan@, ans, j as int);
            let ghost old_ans = ans;
            match plan[j] {
                PlannedMapping::Source(k) => {
                    if k < self.files.len() {
                        let f = &self.files[k];
                        let src = config.file_name_to_source(&f.name);
                        let ghost src_view = src@;
                        let id = builder_add_source(&mut builder, src);
                        let ignore = if !with_orig { config.ignore_list(&f.name) } else { false };
                        let inline = if !with_orig { config.inline_sources_content(&f.name) } else { false };
                        if ignore {
                            builder_add_to_ignore_list(&mut builder, id);
                        }
                        if inline && id != u32::MAX {
                            builder_set_source_contents(&mut builder, id, f.src.clone());
                        }
                        src_id = id;
                        proof {
                            ans = ans.push((src_view, ignore, inline, None));
                        }
                    } else {
                        proof {
                            ans = ans.push((seq![], false, false, None));
                        }
                    }
                },
                PlannedMapping::Boundary { dst_line, dst_col } => {
                    builder_add_raw(&mut builder, dst_line, dst_col, 0, 0, Some(src_id), None);
                    proof {
                        ans = ans.push((seq![], false, false, None));
                    }
                },
                PlannedMapping::Token { dst_line, dst_col, src_line, src_col, pos } => {
                    let name = if !with_orig { config.name_for_bytepos(pos) } else { None };
                    match name {
                        Some(n) => {
                            let ghost nv = n@;
                            let nid = builder_add_name(&mut builder, n);
                            builder_add_raw(&mut builder, dst_line, dst_col, src_line, src_col, Some(src_id), Some(nid));
                            proof {
                                ans = ans.push((seq![], false, false, Some(nv)));
                            }
                        },
                        None => {
                            builder_add_raw(&mut builder, dst_line, dst_col, src_line, src_col, Some(src_id), None);
                            proof {
                                ans = ans.push((seq![], false, false, None));
                            }
                        },
                    }
                },
            }
            proof {
                assert(ans.take(j as int) =~= old_ans);
                lemma_emit_prefix(*self, plan@, ans, j as int);
                assert(emit_upto(*self, plan@, ans, j as int) == before);
            }
            j = j + 1;
        }
        let ghost final_tokens = builder_tokens(builder);
        let map = builder_into_sourcemap(builder);
        proof {
            assert(ans.len() == plan@.len());
            assert(ans =~= config_answers(*self, *config, plan@, with_orig));
        }
        match orig {
            Some(mut o) => {
                proof {
                    broadcast use vstd::seq_lib::group_to_multiset_ensures;
                    assert forall|k: int| 0 <= k < map_tokens(map).len() implies token_bounded(#[trigger] map_tokens(map)[k]) by {
                        let x = map_tokens(map)[k];
                        assert(map_tokens(map).to_multiset().count(x) > 0);
                        assert(final_tokens.to_multiset().count(x) > 0);
                        assert(final_tokens.contains(x));
                    }
                }
                output_adjust_mappings(&mut o, &map);
                proof {
                    assert(map_tokens(map).to_multiset() == final_tokens.to_multiset());
                }
                o
            },
            None => {
                proof {
                    assert(map_tokens(map).to_multiset() == final_tokens.to_multiset());
                }
                map
            },
        }
    }
}

impl SourceMap {
    /// `build_source_map`, after checking that an upstream map can be
    /// composed with: its tokens, the input's generated lines and columns,
    /// and every source position stay below `COORD_LIMIT`. `None` when they
    /// do not.
    pub fn build_source_map_checked<C: SourceMapGenConfig>(
        &self,
        mappings: &[(BytePos, LineCol)],
        orig: Option<OutputMap>,
        config: &C,
    ) -> (r: Option<OutputMap>)
        requires
            self.wf(),
            positions_on_boundaries(*self, mappings@),
            mappings@.len() < 0x7fff_ffff,
        ensures
            orig is None ==> r is Some,
            orig matches Some(o) ==> (r is Some ==> (mappings_bounded(mappings@) && self.start_pos <= COORD_LIMIT
                && map_bounded(o))),
            orig matches Some(o) ==> (mappings_bounded(mappings@) && self.start_pos <= COORD_LIMIT && map_bounded(o)
                && map_tokens(o).len() < usize::MAX ==> r is Some),
            r matches Some(m) ==> ({
                let plan = config_plan(*self, *config, mappings@);
                emitted_as(*self, plan, config_answers(*self, *config, plan, orig is Some), orig, m)
            }),
    {
        match &orig {
            Some(o) => {
                if !check_mappings_bounded(mappings) || self.start_pos > COORD_LIMIT || !check_map_bounded(o) {
                    return None;
                }
            },
            None => {},
        }
        Some(self.build_source_map(mappings, orig, config))
    }
}

/// The emission after `j + 1` steps depends on the answers up to `j`.
proof fn lemma_emit_prefix(sm: SourceMap, plan: Seq<PlannedMapping>, ans: Seq<Answer>, j: int)
    requires
        0 <= j < ans.len(),
    ensures
        emit_upto(sm, plan, ans, j) == emit_upto(sm, plan, ans.take(j), j),
    decreases j,
{
    if j > 0 {
        lemma_emit_prefix(sm, plan, ans, j - 1);
        lemma_emit_prefix(sm, plan, ans.take(j), j - 1);
        assert(ans.take(j).take(j - 1) =~= ans.take(j - 1));
    }
}

/// The generated and source coordinates of the records among `plan`.
pub open spec fn planned_coords(plan: Seq<PlannedMapping>) -> Seq<(u32, u32, u32, u32)>
    decreases plan.len(),
{
    if plan.len() == 0 {
        seq![]
    } else {
        let rest = planned_coords(plan.drop_last());
        match plan.last() {
            PlannedMapping::Source(_) => rest,
            PlannedMapping::Boundary { dst_line, dst_col } => rest.push((dst_line, dst_col, 0u32, 0u32)),
            PlannedMapping::Token { dst_line, dst_col, src_line, src_col, pos } => rest.push(
                (dst_line, dst_col, src_line, src_col),
            ),
        }
    }
}

/// With emit_columns off for a file, two mappings into it on one generated
/// line give one record; with it on, two records, in input order.
pub proof fn lemma_columns_per_line(
    sm: SourceMap,
    skip: Seq<bool>,
    cols: Seq<bool>,
    i: int,
    p1: BytePos,
    c1: u32,
    p2: BytePos,
    c2: u32,
)
    requires
        sm.wf(),
        skip.len() == sm.files@.len(),
        cols.len() == sm.files@.len(),
        0 <= i < sm.files@.len(),
        !skip[i],
        sm.files@[i].src@.len() > 0,
        sm.files@[i].start_pos.0 <= p1.0 < sm.files@[i].end_pos.0,
        sm.files@[i].start_pos.0 <= p2.0 < sm.files@[i].end_pos.0,
        !p1.spec_is_reserved_for_comments(),
        !p2.spec_is_reserved_for_comments(),
    ensures
        ({
            let ms = seq![(p1, LineCol { line: 0, col: c1 }), (p2, LineCol { line: 0, col: c2 })];
            let coords = planned_coords(plan_upto(sm, skip, cols, ms, 2).2);
            &&& !cols[i] ==> coords.len() == 1 && coords[0].0 == 0 && coords[0].1 == c1
            &&& cols[i] ==> coords.len() == 2 && coords[0].0 == 0 && coords[0].1 == c1 && coords[1].0 == 0
                && coords[1].1 == c2
        }),
{
    let f = sm.files@[i];
    assert(f.wf());
    f.lemma_lines();
    sm.lemma_file_index_of_member(i, p1);
    sm.lemma_file_index_of_member(i, p2);
    assert(f.lines@[0] == f.start_pos);
    crate::lookup::lemma_line_index(&*f, p1.0 as int);
    crate::lookup::lemma_line_index(&*f, p2.0 as int);
    assert(sm.files@[0].start_pos.0 >= 1);
    assert(f.start_pos.0 >= 1);
    assert(f.end_pos.0 < sm.start_pos);
    let ms = seq![(p1, LineCol { line: 0, col: c1 }), (p2, LineCol { line: 0, col: c2 })];
    assert(ms[0].0 == p1 && ms[1].0 == p2);
    let (ca, pa, oa) = plan_upto(sm, skip, cols, ms, 1);
    assert(plan_upto(sm, skip, cols, ms, 0) == (-1int, u32::MAX as int, Seq::<PlannedMapping>::empty()));
    assert(ca == i && pa == 0);
    assert(oa.len() == 2 && oa[0] == PlannedMapping::Source(i as usize) && oa[1] is Token);
    let (cb, pb, ob) = plan_upto(sm, skip, cols, ms, 2);
    let more = plan_step(sm, skip, cols, ca, pa, p2, LineCol { line: 0, col: c2 }).2;
    assert(ob == oa + more);
    assert(in_file(sm, ca, p2));
    let c_a = planned_coords(oa);
    assert(oa.drop_last() =~= seq![PlannedMapping::Source(i as usize)]);
    assert(seq![PlannedMapping::Source(i as usize)].drop_last() =~= Seq::<PlannedMapping>::empty());
    assert(oa[1] matches PlannedMapping::Token { dst_line, dst_col, .. } && dst_line == 0 && dst_col == c1);
    assert(planned_coords(Seq::<PlannedMapping>::empty()) =~= Seq::<(u32, u32, u32, u32)>::empty());
    assert(planned_coords(seq![PlannedMapping::Source(i as usize)]) =~= Seq::<(u32, u32, u32, u32)>::empty());
    assert(oa.last() == oa[1]);
    assert(c_a.len() == 1 && c_a[0].0 == 0 && c_a[0].1 == c1);
    if !cols[i] {
        assert(more =~= Seq::<PlannedMapping>::empty());
        assert(ob =~= oa);
    } else {
        assert(more.len() == 1);
        assert(more[0] matches PlannedMapping::Token { dst_line, dst_col, .. } && dst_line == 0 && dst_col == c2);
        assert(ob.drop_last() =~= oa);
        assert(ob.last() == more[0]);
    }
}

/// The tokens emission leaves in the builder sit at the planned
/// generated coordinates, one for each record of the plan.
proof fn lemma_emit_coords(sm: SourceMap, plan: Seq<PlannedMapping>, ans: Seq<Answer>, n: int)
    requires
        0 <= n <= plan.len(),
    ensures
        emit_upto(sm, plan, ans, n).0.len() == planned_coords(plan.take(n)).len(),
        forall|k: int|
            0 <= k < emit_upto(sm, plan, ans, n).0.len() ==> (#[trigger] emit_upto(sm, plan, ans, n).0[k]).0
                == planned_coords(plan.take(n))[k].0 && emit_upto(sm, plan, ans, n).0[k].1 == planned_coords(
                plan.take(n),
            )[k].1,
    decreases n,
{
    if n > 0 {
        lemma_emit_coords(sm, plan, ans, n - 1);
        assert(plan.take(n).drop_last() =~= plan.take(n - 1));
        assert(plan.take(n).last() == plan[n - 1]);
    } else {
        assert(plan.take(0) =~= Seq::<PlannedMapping>::empty());
    }
}

/// Through `build_source_map` itself: with emit_columns off for a file, two
/// mappings into it on generated line 0 give a map with one token, at the
/// first mapping's column; with it on, two tokens on line 0, at the two
/// columns.
pub proof fn lemma_build_columns_per_line<C: SourceMapGenConfig>(
    sm: SourceMap,
    c: C,
    i: int,
    p1: BytePos,
    c1: u32,
    p2: BytePos,
    c2: u32,
    r: OutputMap,
)
    requires
        sm.wf(),
        0 <= i < sm.files@.len(),
        !c.spec_skip(sm.files@[i].name@),
        sm.files@[i].src@.len() > 0,
        sm.files@[i].start_pos.0 <= p1.0 < sm.files@[i].end_pos.0,
        sm.files@[i].start_pos.0 <= p2.0 < sm.files@[i].end_pos.0,
        !p1.spec_is_reserved_for_comments(),
        !p2.spec_is_reserved_for_comments(),
        ({
            let ms = seq![(p1, LineCol { line: 0, col: c1 }), (p2, LineCol { line: 0, col: c2 })];
            let plan = config_plan(sm, c, ms);
            emitted_as(sm, plan, config_answers(sm, c, plan, false), None, r)
        }),
    ensures
        !c.spec_emit_columns(sm.files@[i].name@) ==> map_tokens(r).len() == 1 && map_tokens(r)[0].0 == 0
            && map_tokens(r)[0].1 == c1,
        c.spec_emit_columns(sm.files@[i].name@) ==> map_tokens(r).len() == 2 && map_tokens(r)[0].0 == 0
            && map_tokens(r)[1].0 == 0 && (map_tokens(r)[0].1 == c1 || map_tokens(r)[1].1 == c1) && (
        map_tokens(r)[0].1 == c2 || map_tokens(r)[1].1 == c2),
{
    broadcast use vstd::seq_lib::group_to_multiset_ensures;

    let ms = seq![(p1, LineCol { line: 0, col: c1 }), (p2, LineCol { line: 0, col: c2 })];
    let skip = skip_answers(sm, c);
    let cols = cols_answers(sm, c);
    lemma_columns_per_line(sm, skip, cols, i, p1, c1, p2, c2);
    let plan = config_plan(sm, c, ms);
    let ans = config_answers(sm, c, plan, false);
    lemma_emit_coords(sm, plan, ans, plan.len() as int);
    assert(plan.take(plan.len() as int) =~= plan);
    let toks = emit_upto(sm, plan, ans, plan.len() as int).0;
    let t = choose|t: Seq<(u32, u32, u32, u32, u32, u32)>|
        #![trigger t.to_multiset()]
        t.to_multiset() == toks.to_multiset() && map_tokens(r) == t;
    assert(t.len() == toks.len()) by {
        assert(t.to_multiset().len() == t.len());
        assert(toks.to_multiset().len() == toks.len());
    }
    assert forall|k: int| 0 <= k < t.len() implies toks.contains(#[trigger] t[k]) by {
        assert(t.contains(t[k]));
        assert(t.to_multiset().count(t[k]) > 0);
    }
    assert forall|k: int| 0 <= k < toks.len() implies t.contains(#[trigger] toks[k]) by {
        assert(toks.contains(toks[k]));
        assert(toks.to_multiset().count(toks[k]) > 0);
    }
    if c.spec_emit_columns(sm.files@[i].name@) {
        assert(t.contains(toks[0]));
        assert(t.contains(toks[1]));
        assert(toks.contains(t[0]));
        assert(toks.contains(t[1]));
    } else {
        assert(toks.contains(t[0]));
    }
}

} // verus!
