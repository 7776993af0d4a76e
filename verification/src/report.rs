//! What a report of a scan is made of: the largest files, and time stamps as text.

use crate::models::{InstallerFile, ScanSummary};
use vstd::prelude::*;
use vstd::string::*;

verus! {

/// The first number of seconds since the epoch that lies past the year 9999.
/// Time stamps from here on have no text form.
pub const TIMESTAMP_LIMIT: u64 = 253_402_300_800;

/// The RFC 3339 text, in UTC and to the second, of the moment `unix_secs`
/// seconds after the epoch, such as `2018-02-14T00:28:07Z`.
pub uninterp spec fn rfc3339_seconds(unix_secs: u64) -> Seq<char>;

/// `humantime::format_rfc3339_seconds`, applied to the moment `unix_secs`
/// seconds after the epoch and written out as a string. The text depends on
/// `unix_secs` alone: it is in UTC whatever the machine's time zone. From the
/// year 10000 on the outside function gives no text, so such moments are
/// left out. The call itself is not verified.
#[verifier::external_body]
pub(crate) fn format_timestamp(unix_secs: u64) -> (text: String)
    requires
        unix_secs < TIMESTAMP_LIMIT,
    ensures
        text@ == rfc3339_seconds(unix_secs),
{
    let moment = std::time::UNIX_EPOCH + std::time::Duration::from_secs(unix_secs);
    humantime::format_rfc3339_seconds(moment).to_string()
}

/// The text shown for a modification time: its RFC 3339 form, or a fixed
/// phrase where the time is not known.
pub open spec fn optional_timestamp_text(unix_secs: Option<u64>) -> Seq<char> {
    match unix_secs {
        Some(secs) => rfc3339_seconds(secs),
        None => "unknown-modified-time"@,
    }
}

/// The text shown for a modification time.
pub fn format_optional_timestamp(unix_secs: Option<u64>) -> (text: String)
    requires
        unix_secs matches Some(secs) ==> secs < TIMESTAMP_LIMIT,
    ensures
        text@ == optional_timestamp_text(unix_secs),
{
    match unix_secs {
        Some(secs) => format_timestamp(secs),
        None => String::from_str("unknown-modified-time"),
    }
}

/// Whether the file at position `a` is listed before the one at position `b`
/// when the largest come first: it is larger, or as large and found earlier.
pub open spec fn ranks_before(files: Seq<InstallerFile>, a: int, b: int) -> bool {
    ||| files[a].size_bytes > files[b].size_bytes
    ||| files[a].size_bytes == files[b].size_bytes && a < b
}

/// Whether `order` lists the positions of the `max` largest of `files`, or
/// of all of them where there are fewer, the largest first and files of one
/// size in the order in which they were found.
pub open spec fn is_ranking(files: Seq<InstallerFile>, max: nat, order: Seq<usize>) -> bool {
    &&& order.len() == if max <= files.len() {
        max
    } else {
        files.len()
    }
    &&& forall|k: int| 0 <= k < order.len() ==> order[k] < files.len()
    &&& forall|i: int, j: int|
        0 <= i < j < order.len() ==> ranks_before(files, order[i] as int, order[j] as int)
    &&& forall|p: usize, k: int|
        #![trigger order.contains(p), order[k]]
        p < files.len() && 0 <= k < order.len() && !order.contains(p) ==> ranks_before(
            files,
            order[k] as int,
            p as int,
        )
}

/// The positions of the `max` largest files of `summary`, the largest first.
pub fn largest_positions(summary: &ScanSummary, max: usize) -> (order: Vec<usize>)
    ensures
        is_ranking(summary.files@, max as nat, order@),
{
    let files = &summary.files;
    let n = files.len();
    let wanted = if max <= n {
        max
    } else {
        n
    };
    let mut order: Vec<usize> = Vec::new();
    while order.len() < wanted
        invariant
            n == files@.len(),
            wanted <= n,
            is_ranking(files@, order@.len() as nat, order@),
            order@.len() <= wanted,
        decreases wanted - order.len(),
    {
        let ghost chosen = order@;
        let count = order.len();
        let mut best: Option<usize> = None;
        let mut p: usize = 0;
        while p < n
            invariant
                n == files@.len(),
                p <= n,
                count == chosen.len(),
                order@ == chosen,
                count < n,
                is_ranking(files@, count as nat, chosen),
                match best {
                    Some(b) => {
                        &&& b < p
                        &&& !chosen.contains(b)
                        &&& forall|q: usize|
                            q < p && !chosen.contains(q) ==> q == b || ranks_before(
                                files@,
                                b as int,
                                q as int,
                            )
                    },
                    None => forall|q: usize| q < p ==> chosen.contains(q),
                },
            decreases n - p,
        {
            let open = count == 0 || comes_before(files, order[count - 1], p);
            proof {
                if count > 0 {
                    let last = chosen[count - 1];
                    if open {
                        if chosen.contains(p) {
                            let k = choose|k: int| 0 <= k < chosen.len() && chosen[k] == p;
                            if k < count - 1 {
                                assert(ranks_before(files@, chosen[k] as int, last as int));
                            }
                        }
                    } else if !chosen.contains(p) {
                        assert(ranks_before(files@, chosen[count - 1] as int, p as int));
                    }
                }
                assert(open <==> !chosen.contains(p));
            }
            if open {
                match best {
                    Some(b) => {
                        if comes_before(files, p, b) {
                            best = Some(p);
                        }
                    },
                    None => {
                        best = Some(p);
                    },
                }
            }
            p = p + 1;
        }
        proof {
            if best is None {
                lemma_listed_positions(files@, chosen);
            }
        }
        let next = best.unwrap();
        order.push(next);
        proof {
            let grown = order@;
            assert forall|i: int, j: int| 0 <= i < j < grown.len() implies ranks_before(
                files@,
                grown[i] as int,
                grown[j] as int,
            ) by {
                if j < count {
                    assert(grown[i] == chosen[i] && grown[j] == chosen[j]);
                } else {
                    assert(grown[i] == chosen[i]);
                    assert(!chosen.contains(next));
                    assert(ranks_before(files@, chosen[i] as int, next as int));
                }
            }
            assert forall|q: usize, k: int|
                #![trigger grown.contains(q), grown[k]]
                q < n && 0 <= k < grown.len() && !grown.contains(q) implies ranks_before(
                files@,
                grown[k] as int,
                q as int,
            ) by {
                if chosen.contains(q) {
                    let at = choose|at: int| 0 <= at < chosen.len() && chosen[at] == q;
                    assert(grown[at] == q);
                } else if q == next {
                    assert(grown[count as int] == next);
                } else if k < count {
                    assert(grown[k] == chosen[k]);
                    assert(ranks_before(files@, chosen[k] as int, q as int));
                } else {
                    assert(grown[k] == next);
                }
            }
        }
    }
    order
}

/// A list that holds every position below `files.len()` is at least that long.
proof fn lemma_listed_positions(files: Seq<InstallerFile>, order: Seq<usize>)
    requires
        files.len() <= usize::MAX,
        forall|q: usize| q < files.len() ==> order.contains(q),
    ensures
        order.len() >= files.len(),
{
    let listed = Seq::new(order.len(), |k: int| order[k] as int);
    let all = vstd::set_lib::set_int_range(0, files.len() as int);
    assert(all.subset_of(listed.to_set())) by {
        assert forall|p: int| all.contains(p) implies listed.to_set().contains(p) by {
            assert(order.contains(p as usize));
            let k = choose|k: int| 0 <= k < order.len() && order[k] == p as usize;
            assert(listed[k] == p);
        }
    }
    vstd::set_lib::lemma_int_range(0, files.len() as int);
    listed.lemma_cardinality_of_set();
    vstd::seq_lib::seq_to_set_is_finite(listed);
    vstd::set_lib::lemma_len_subset(all, listed.to_set());
}

/// Whether the file at `a` is listed before the one at `b`.
fn comes_before(files: &Vec<InstallerFile>, a: usize, b: usize) -> (before: bool)
    requires
        a < files@.len(),
        b < files@.len(),
    ensures
        before == ranks_before(files@, a as int, b as int),
{
    files[a].size_bytes > files[b].size_bytes || (files[a].size_bytes == files[b].size_bytes && a
        < b)
}

/// The `max` largest files of `summary`, the largest first; files of one
/// size stay in the order in which they were found.
pub fn largest_files(summary: &ScanSummary, max: usize) -> (largest: Vec<&InstallerFile>)
    ensures
        exists|order: Seq<usize>|
            {
                &&& is_ranking(summary.files@, max as nat, order)
                &&& largest@.len() == order.len()
                &&& forall|k: int|
                    0 <= k < order.len() ==> *largest@[k] == summary.files@[order[k] as int]
            },
{
    let order = largest_positions(summary, max);
    let mut largest: Vec<&InstallerFile> = Vec::new();
    let mut k: usize = 0;
    while k < order.len()
        invariant
            k <= order.len(),
            largest@.len() == k,
            is_ranking(summary.files@, max as nat, order@),
            forall|i: int| 0 <= i < k ==> *largest@[i] == summary.files@[order@[i] as int],
        decreases order.len() - k,
    {
        largest.push(&summary.files[order[k]]);
        k = k + 1;
    }
    largest
}

} // verus!
