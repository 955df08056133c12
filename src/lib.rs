//! Source positions, per-file line/column analysis, and the source map that
//! interns every file of a compilation session into one 32-bit address space.

pub mod pos;
pub mod text;
pub mod analysis;
pub mod file_name;
pub mod source_file;
pub mod char_pos;
pub mod path_mapping;
pub mod stable_id;
pub mod source_map;
pub mod lookup;
pub mod snippet;
pub mod lines;
pub mod scan;
pub mod adjust;
pub mod points;
pub mod misc;
pub mod emit;
pub mod suggest;

pub use pos::{BytePos, CharPos, Span};
pub use file_name::FileName;
pub use source_file::SourceFile;
pub use analysis::{MultiByteChar, NonNarrowChar};
pub use char_pos::{calc_utf16_offset, charpos_to_bytepos, ByteToCharPosState};
pub use path_mapping::FilePathMapping;
pub use stable_id::StableSourceFileId;
pub use source_map::SourceMap;
pub use lookup::{Files, Loc, LocWithOpt, SourceFileAndBytePos, SourceFileAndLine, SourceMapLookupError};
pub use snippet::{DistinctSources, FilePos, MalformedSourceMapPositions, SpanSnippetError};
pub use lines::{FileLines, LineInfo, SpanLinesError};
pub use emit::{
    default_ignore_list, default_inline_sources_content, default_skip, DefaultSourceMapGenConfig, EmitColumns, LineCol,
    PlannedMapping, SourceMapGenConfig,
};

