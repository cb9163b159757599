//! What the benchmarks of the library measure: a state machine that adds
//! up, the step of a replica in a round, and the text of a stored entry.

mod entry;
mod rounds;
mod sum;

pub use entry::{
    decode_entry, decoded, encode_entry, encoded, entries_read_back, DecodeError, Op, StoredEntry,
};
pub use rounds::{config, finish_step, in_rounds, is_idle_round, run_length, Finished, Tally, TallyView};
pub use sum::{NoChunk, Sum, Total};
