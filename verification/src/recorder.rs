//! Small verified pieces of invocation recording: counter arithmetic,
//! snapshot reading, file-watcher statistics merging, and stderr truncation.
//!
//! The surrounding recording machinery does I/O and speaks wire formats;
//! what stands here is the part that only computes, over plain values.

use vstd::prelude::*;
use vstd::string::StringSliceAdditionalSpecFns;

verus! {

broadcast use {
    vstd::utf8::encode_utf8_valid_utf8,
    vstd::utf8::is_char_boundary_start_end_of_seq,
};

/// The absolute difference of two counters, where both are present.
pub fn calculate_diff_if_some(a: &Option<u64>, b: &Option<u64>) -> (r: Option<u64>)
    ensures
        match (*a, *b) {
            (Option::Some(av), Option::Some(bv)) => r == Option::Some(
                if av >= bv {
                    (av - bv) as u64
                } else {
                    (bv - av) as u64
                },
            ),
            _ => r is None,
        },
{
    match (a, b) {
        (Option::Some(av), Option::Some(bv)) => {
            if *av >= *bv {
                Option::Some(*av - *bv)
            } else {
                Option::Some(*bv - *av)
            }
        },
        _ => Option::None,
    }
}

/// The memory counters of one daemon snapshot that the recorder reads:
/// the resident set size the daemon observed, and the allocator's count of
/// active bytes.
pub struct Snapshot {
    pub malloc_bytes_active: Option<u64>,
    pub buck2_rss: Option<u64>,
}

/// The process memory a snapshot witnesses: the larger of the two counters
/// that are present.  The resident set size alone is unreliable (swapping
/// moves pages out of it, and some systems do not report it), so the
/// allocator's own count is taken into account.
pub fn process_memory(snapshot: &Snapshot) -> (r: Option<u64>)
    ensures
        match (snapshot.malloc_bytes_active, snapshot.buck2_rss) {
            (Option::Some(m), Option::Some(s)) => r == Option::Some(
                if m >= s {
                    m
                } else {
                    s
                },
            ),
            (Option::Some(m), Option::None) => r == Option::Some(m),
            (Option::None, Option::Some(s)) => r == Option::Some(s),
            (Option::None, Option::None) => r is None,
        },
{
    match (&snapshot.malloc_bytes_active, &snapshot.buck2_rss) {
        (Option::Some(m), Option::Some(s)) => Option::Some(
            if *m >= *s {
                *m
            } else {
                *s
            },
        ),
        (Option::Some(m), Option::None) => Option::Some(*m),
        (Option::None, Option::Some(s)) => Option::Some(*s),
        (Option::None, Option::None) => Option::None,
    }
}

/// What one file-watcher run reported, as the recorder keeps it: plain
/// counters and identifiers.
pub struct FileWatcherStats {
    /// Whether the watcher started over instead of continuing its journal.
    pub fresh_instance: bool,
    pub events_total: u64,
    pub events_processed: u64,
    pub branched_from_revision: Option<String>,
    pub branched_from_global_rev: Option<u64>,
    pub branched_from_revision_timestamp: Option<u64>,
    /// The changed paths, as reported.
    pub events: Vec<String>,
    pub incomplete_events_reason: Option<String>,
    pub watchman_version: Option<String>,
}

/// The first of two optional values, or the second where the first is
/// missing.
pub open spec fn spec_or<T>(a: Option<T>, b: Option<T>) -> Option<T> {
    match a {
        Option::Some(v) => Option::Some(v),
        Option::None => b,
    }
}

/// Merge the statistics of two file-watcher runs: flags are or-ed, counters
/// added, identifying fields kept from the first run that reported them, and
/// the event lists concatenated.  With only one side present, that side is
/// the merge.
pub fn merge_file_watcher_stats(
    a: Option<FileWatcherStats>,
    b: Option<FileWatcherStats>,
) -> (r: Option<FileWatcherStats>)
    requires
        match (a, b) {
            (Option::Some(x), Option::Some(y)) => x.events_total + y.events_total <= u64::MAX
                && x.events_processed + y.events_processed <= u64::MAX,
            _ => true,
        },
    ensures
        match (a, b) {
            (Option::Some(x), Option::Some(y)) => match r {
                Option::Some(m) => {
                    &&& m.fresh_instance == (x.fresh_instance || y.fresh_instance)
                    &&& m.events_total == x.events_total + y.events_total
                    &&& m.events_processed == x.events_processed + y.events_processed
                    &&& m.branched_from_revision.deep_view() == spec_or(
                        x.branched_from_revision,
                        y.branched_from_revision,
                    ).deep_view()
                    &&& m.branched_from_global_rev == spec_or(
                        x.branched_from_global_rev,
                        y.branched_from_global_rev,
                    )
                    &&& m.branched_from_revision_timestamp == spec_or(
                        x.branched_from_revision_timestamp,
                        y.branched_from_revision_timestamp,
                    )
                    &&& m.events.deep_view() == x.events.deep_view() + y.events.deep_view()
                    &&& m.incomplete_events_reason.deep_view() == spec_or(
                        x.incomplete_events_reason,
                        y.incomplete_events_reason,
                    ).deep_view()
                    &&& m.watchman_version.deep_view() == spec_or(
                        x.watchman_version,
                        y.watchman_version,
                    ).deep_view()
                },
                Option::None => false,
            },
            (Option::Some(x), Option::None) => match r {
                Option::Some(m) => m == x,
                Option::None => false,
            },
            (Option::None, yy) => r == yy,
        },
{
    match (a, b) {
        (Option::Some(mut x), Option::Some(y)) => {
            x.fresh_instance = x.fresh_instance || y.fresh_instance;
            x.events_total = x.events_total + y.events_total;
            x.events_processed = x.events_processed + y.events_processed;
            x.branched_from_revision = match x.branched_from_revision {
                Option::Some(v) => Option::Some(v),
                Option::None => y.branched_from_revision,
            };
            x.branched_from_global_rev = match x.branched_from_global_rev {
                Option::Some(v) => Option::Some(v),
                Option::None => y.branched_from_global_rev,
            };
            x.branched_from_revision_timestamp = match x.branched_from_revision_timestamp {
                Option::Some(v) => Option::Some(v),
                Option::None => y.branched_from_revision_timestamp,
            };
            let mut extra = y.events;
            x.events.append(&mut extra);
            x.incomplete_events_reason = match x.incomplete_events_reason {
                Option::Some(v) => Option::Some(v),
                Option::None => y.incomplete_events_reason,
            };
            x.watchman_version = match x.watchman_version {
                Option::Some(v) => Option::Some(v),
                Option::None => y.watchman_version,
            };
            Option::Some(x)
        },
        (Option::Some(x), Option::None) => Option::Some(x),
        (Option::None, yy) => yy,
    }
}

/// How many trailing bytes of a crashed server's stderr are kept.
pub const STDERR_TAIL_BYTES: usize = 20000;

/// Keep at most the last [`STDERR_TAIL_BYTES`] bytes of a server's stderr:
/// the cut lands on the first character boundary at or after the ideal byte
/// position, so the result is valid text of at most that many bytes.  A
/// crashed server's full stderr is not worth keeping nicely: it only has to
/// be seen once.
pub fn truncate_stderr(stderr: &str) -> (r: &str)
    requires
        stderr.spec_bytes().len() <= usize::MAX,
    ensures
        ({
            let bytes = stderr.spec_bytes();
            let start = if bytes.len() > STDERR_TAIL_BYTES {
                bytes.len() - STDERR_TAIL_BYTES
            } else {
                0
            };
            exists|cut: int|
                {
                    &&& start <= cut <= bytes.len()
                    &&& vstd::utf8::is_char_boundary(bytes, cut)
                    &&& forall|j: int|
                        start <= j < cut ==> !vstd::utf8::is_char_boundary(bytes, j)
                    &&& r.spec_bytes() == #[trigger] bytes.skip(cut)
                }
        }),
{
    let ghost bytes = stderr.spec_bytes();
    proof {
        assert(vstd::utf8::valid_utf8(bytes));
    }
    let len = stderr.len();
    let ghost start = if bytes.len() > STDERR_TAIL_BYTES {
        bytes.len() - (STDERR_TAIL_BYTES as int)
    } else {
        0int
    };
    let mut at: usize = if len > STDERR_TAIL_BYTES {
        len - STDERR_TAIL_BYTES
    } else {
        0
    };
    while !stderr.is_char_boundary(at)
        invariant
            start <= at <= bytes.len(),
            bytes.len() <= usize::MAX,
            bytes == stderr.spec_bytes(),
            forall|j: int| start <= j < at ==> !vstd::utf8::is_char_boundary(bytes, j),
        decreases bytes.len() - at,
    {
        proof {
            assert(vstd::utf8::is_char_boundary(bytes, bytes.len() as int));
            assert(at < bytes.len());
        }
        at = at + 1;
    }
    let parts = stderr.split_at(at);
    proof {
        assert(parts.1.spec_bytes() =~= bytes.skip(at as int));
    }
    parts.1
}

} // verus!
