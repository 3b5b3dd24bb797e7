//! Columnar read-layer data engine: storage formats, indexes, segment search
//! and the decisions of its command line, stated as contracts and proved.

pub mod buffer_pool;
pub mod bytes;
pub mod canonical;
pub mod column;
pub mod compaction;
pub mod deploy;
pub mod entry_cache;
pub mod exact_index;
pub mod exact_index_io;
pub mod exact_index_v3;
pub mod field_index;
pub mod hits;
pub mod json_text;
pub mod keymap;
pub mod launch;
pub mod laws;
pub mod legacy;
pub mod lookup;
pub mod manifest;
pub mod phrase;
pub mod postings;
pub mod primary_index;
pub mod primary_index_io;
pub mod query;
pub mod release;
pub mod repl;
pub mod row_json;
pub mod rowset;
pub mod segment;
pub mod segment_io;
pub mod settings;
pub mod sort_key;
pub mod sorting;
pub mod soundness;
pub mod sweep;
pub mod table;
pub mod text;
pub mod text_sort;
pub mod textmap;
pub mod types;
pub mod upkeep;
pub mod vpn;
pub mod wal;
pub mod writer;
