//! The log file's lines, rotation and archive pruning rules.
use vstd::prelude::*;

use vstd::relations::{sorted_by, total_ordering};

use crate::query_dsl::strings;
use crate::search::{lemma_seq_order_antisym, lemma_seq_order_trans, seq_order, seq_order_exec, views};
use crate::settings::{decimal, decimal_u64};
use crate::text;

verus! {

broadcast use {vstd::multiset::group_multiset_axioms, vstd::seq_lib::group_to_multiset_ensures};

/// The log file's name.
pub const LOG_FILE_NAME: &'static str = "swiftfind.log";

/// A log this large is archived before more is written.
pub const MAX_LOG_BYTES: u64 = 1_000_000;

/// At most this many archived logs are kept.
pub const MAX_ARCHIVES: usize = 5;

/// One log line: time stamp, level and message.
pub open spec fn log_line(ts: nat, level: Seq<char>, message: Seq<char>) -> Seq<char> {
    seq!['['] + decimal(ts) + "] ["@ + level + "] "@ + message + seq!['\n']
}

pub fn format_log_line(ts: u64, level: &str, message: &str) -> (out: String)
    ensures
        out@ == log_line(ts as nat, level@, message@),
{
    let mut out = String::new();
    text::push_char(&mut out, '[');
    let d = decimal_u64(ts);
    let ds = text::string_of(&d);
    text::push_str(&mut out, ds.as_str());
    text::push_str(&mut out, "] [");
    text::push_str(&mut out, level);
    text::push_str(&mut out, "] ");
    text::push_str(&mut out, message);
    text::push_char(&mut out, '\n');
    proof {
        assert(out@ =~= log_line(ts as nat, level@, message@));
    }
    out
}

/// Whether a log of `len` bytes is archived before writing.
pub fn needs_rotation(len: u64) -> (b: bool)
    ensures
        b == (len >= MAX_LOG_BYTES),
{
    len >= MAX_LOG_BYTES
}

/// The file name of a log archived at `stamp`.
pub fn archive_name(stamp: u64) -> (out: String)
    ensures
        out@ == "swiftfind-"@ + decimal(stamp as nat) + ".log"@,
{
    let d = decimal_u64(stamp);
    let ds = text::string_of(&d);
    let mut out = text::concat("swiftfind-", ds.as_str());
    text::push_str(&mut out, ".log");
    out
}

/// A file name of an archived log.
pub open spec fn is_archive_name(name: Seq<char>) -> bool {
    text::starts_with(name, "swiftfind-"@) && text::ends_with(name, ".log"@)
}

pub fn is_log_archive_name(name: &str) -> (b: bool)
    ensures
        b == is_archive_name(name@),
{
    text::str_starts_with(name, "swiftfind-") && text::str_ends_with(name, ".log")
}

/// Texts in ascending order (the order `str` comparison gives).
pub open spec fn text_leq() -> spec_fn(Seq<char>, Seq<char>) -> bool {
    |a: Seq<char>, b: Seq<char>| seq_order(a, b) <= 0
}

proof fn lemma_text_leq_total()
    ensures
        total_ordering(text_leq()),
{
    assert forall|a: Seq<char>| #[trigger] text_leq()(a, a) by {
        lemma_seq_order_antisym(a, a);
    }
    assert forall|a: Seq<char>, b: Seq<char>| #[trigger] text_leq()(a, b) && #[trigger] text_leq()(b, a) implies a == b by {
        lemma_seq_order_antisym(a, b);
    }
    assert forall|a: Seq<char>, b: Seq<char>, c: Seq<char>| #[trigger] text_leq()(a, b) && #[trigger] text_leq()(b, c)
        implies #[trigger] text_leq()(a, c) by {
        lemma_seq_order_trans(a, b, c);
    }
    assert forall|a: Seq<char>, b: Seq<char>| #[trigger] text_leq()(a, b) || #[trigger] text_leq()(b, a) by {
        lemma_seq_order_antisym(a, b);
    }
}

/// The archive names among `names`, in order.
pub open spec fn archive_names(names: Seq<Seq<char>>) -> Seq<Seq<char>>
    decreases names.len(),
{
    if names.len() == 0 {
        Seq::empty()
    } else if is_archive_name(names.last()) {
        archive_names(names.drop_last()).push(names.last())
    } else {
        archive_names(names.drop_last())
    }
}

/// The archives to remove among the names in the log folder: sorted, all
/// but the last five.
pub open spec fn archives_to_prune(names: Seq<Seq<char>>) -> Seq<Seq<char>> {
    let sorted = archive_names(names).sort_by(text_leq());
    if sorted.len() > MAX_ARCHIVES {
        sorted.take(sorted.len() - MAX_ARCHIVES)
    } else {
        Seq::empty()
    }
}

/// The archived logs to remove, given the file names in the log folder.
pub fn old_archives(names: &[String]) -> (out: Vec<String>)
    ensures
        strings(out@) == archives_to_prune(strings(names@)),
{
    let ghost ns = strings(names@);
    let mut found: Vec<Vec<char>> = Vec::new();
    let mut i: usize = 0;
    while i < names.len()
        invariant
            i <= names@.len(),
            ns == strings(names@),
            views(found@) == archive_names(ns.take(i as int)),
        decreases names@.len() - i,
    {
        proof {
            assert(ns.take((i + 1) as int).drop_last() =~= ns.take(i as int));
            assert(ns.take((i + 1) as int).last() == names@[i as int]@);
        }
        if is_log_archive_name(names[i].as_str()) {
            let ghost before = views(found@);
            found.push(text::chars_of(names[i].as_str()));
            proof {
                assert(views(found@) =~= before.push(names@[i as int]@));
            }
        }
        i = i + 1;
    }
    proof {
        assert(ns.take(names@.len() as int) =~= ns);
    }
    let ghost all = views(found@);
    let mut sorted: Vec<Vec<char>> = Vec::new();
    let mut k: usize = 0;
    while k < found.len()
        invariant
            k <= found@.len(),
            all == views(found@),
            sorted_by(views(sorted@), text_leq()),
            views(sorted@).to_multiset() == all.take(k as int).to_multiset(),
        decreases found@.len() - k,
    {
        let x = text::slice_vec(&found[k as usize], 0, found[k as usize].len());
        proof {
            assert(x@ =~= all[k as int]);
        }
        let mut pos: usize = 0;
        while pos < sorted.len() && seq_order_exec(&sorted[pos], &x) <= 0
            invariant
                pos <= sorted@.len(),
                forall|m: int| 0 <= m < pos ==> text_leq()(#[trigger] views(sorted@)[m], x@),
            decreases sorted@.len() - pos,
        {
            pos = pos + 1;
        }
        let ghost before = views(sorted@);
        proof {
            if pos < before.len() {
                lemma_seq_order_antisym(before[pos as int], x@);
                assert(text_leq()(x@, before[pos as int]));
            }
        }
        let ghost xv = x@;
        sorted.insert(pos, x);
        proof {
            let a = before.take(pos as int);
            let b = before.skip(pos as int);
            assert(before =~= a + b);
            assert(views(sorted@) =~= a.push(xv) + b);
            let now = views(sorted@);
            assert forall|p: int, q: int| 0 <= p < q < now.len() implies #[trigger] text_leq()(now[p], now[q]) by {
                if q < pos {
                    assert(text_leq()(before[p], before[q]));
                } else if q == pos {
                    assert(text_leq()(before[p], xv));
                } else if p < pos {
                    assert(text_leq()(before[p], before[q - 1]));
                } else if p == pos {
                    if pos < q - 1 {
                        assert(text_leq()(before[pos as int], before[q - 1]));
                        lemma_seq_order_trans(xv, before[pos as int], before[q - 1]);
                    }
                } else {
                    assert(text_leq()(before[p - 1], before[q - 1]));
                }
            }
            vstd::seq_lib::lemma_multiset_commutative(a, b);
            vstd::seq_lib::lemma_multiset_commutative(a.push(xv), b);
            assert(now.to_multiset() =~= before.to_multiset().insert(xv));
            assert(all.take(k + 1) =~= all.take(k as int).push(xv));
        }
        k = k + 1;
    }
    proof {
        assert(all.take(all.len() as int) =~= all);
        lemma_text_leq_total();
        all.lemma_sort_by_ensures(text_leq());
        vstd::seq_lib::lemma_sorted_unique(views(sorted@), all.sort_by(text_leq()), text_leq());
    }
    let mut out: Vec<String> = Vec::new();
    if sorted.len() <= MAX_ARCHIVES {
        proof {
            assert(strings(out@) =~= Seq::<Seq<char>>::empty());
        }
        return out;
    }
    let n = sorted.len() - MAX_ARCHIVES;
    let mut j: usize = 0;
    while j < n
        invariant
            j <= n,
            n == sorted@.len() - MAX_ARCHIVES,
            strings(out@) == views(sorted@).take(j as int),
        decreases n - j,
    {
        let s = text::string_of(&sorted[j]);
        let ghost before = strings(out@);
        out.push(s);
        proof {
            assert(strings(out@) =~= before.push(s@));
            assert(views(sorted@).take((j + 1) as int) =~= views(sorted@).take(j as int).push(sorted@[j as int]@));
        }
        j = j + 1;
    }
    out
}

} // verus!
