//! The aggregator: orders per-file counts, computes totals, and groups the
//! counts into per-extension buckets.

use vstd::prelude::*;
use vstd::pervasive::VecAdditionalExecFns;
use crate::paths::ext_of;
use crate::paths::extension_of;
use crate::paths::lex_le;
use crate::paths::lemma_lex_le_total;
use crate::paths::path_le;
use crate::types::ExtensionSummary;
use crate::types::FileCount;
use crate::types::SortOrder;

verus! {

/// The sum of `f` over the elements of `s`.
pub open spec fn sum_by<T>(s: Seq<T>, f: spec_fn(T) -> int) -> int
    decreases s.len(),
{
    if s.len() == 0 {
        0
    } else {
        sum_by(s.drop_last(), f) + f(s.last())
    }
}

/// A file's line count, as the weight that line totals add up.
pub open spec fn lines_weight() -> spec_fn(FileCount) -> int {
    |f: FileCount| f.lines as int
}

/// Whether a file carries the extension `e`: 1 when it does, 0 otherwise.
pub open spec fn ext_ind(e: Seq<char>) -> spec_fn(FileCount) -> int {
    |f: FileCount|
        if ext_of(f.path@) == e {
            1int
        } else {
            0int
        }
}

/// A file's line count when it carries the extension `e`, 0 otherwise.
pub open spec fn ext_lines_weight(e: Seq<char>) -> spec_fn(FileCount) -> int {
    |f: FileCount|
        if ext_of(f.path@) == e {
            f.lines as int
        } else {
            0int
        }
}

/// Whether a bucket is keyed by the extension `e`: 1 when it is, 0 otherwise.
pub open spec fn key_ind(e: Seq<char>) -> spec_fn(ExtensionSummary) -> int {
    |b: ExtensionSummary|
        if b.extension@ == e {
            1int
        } else {
            0int
        }
}

/// A bucket's file count.
pub open spec fn files_weight() -> spec_fn(ExtensionSummary) -> int {
    |b: ExtensionSummary| b.file_count as int
}

/// A bucket's line total.
pub open spec fn bucket_lines_weight() -> spec_fn(ExtensionSummary) -> int {
    |b: ExtensionSummary| b.total_lines as int
}

/// The exact line total of a sequence of per-file counts.
pub open spec fn sum_lines(s: Seq<FileCount>) -> int {
    sum_by(s, lines_weight())
}

/// A total clamped to what a 64-bit counter can hold.
pub open spec fn saturated(total: int) -> int {
    if total > u64::MAX {
        u64::MAX as int
    } else {
        total
    }
}

/// How many files of `s` carry the extension `e`.
pub open spec fn ext_count(s: Seq<FileCount>, e: Seq<char>) -> int {
    sum_by(s, ext_ind(e))
}

/// The line total of the files of `s` that carry the extension `e`.
pub open spec fn ext_lines(s: Seq<FileCount>, e: Seq<char>) -> int {
    sum_by(s, ext_lines_weight(e))
}

/// How many buckets of `bs` are keyed by the extension `e`.
pub open spec fn key_count(bs: Seq<ExtensionSummary>, e: Seq<char>) -> int {
    sum_by(bs, key_ind(e))
}

/// The sum of the buckets' file counts.
pub open spec fn bucket_files_total(bs: Seq<ExtensionSummary>) -> int {
    sum_by(bs, files_weight())
}

/// The sum of the buckets' line totals.
pub open spec fn bucket_lines_total(bs: Seq<ExtensionSummary>) -> int {
    sum_by(bs, bucket_lines_weight())
}

/// The buckets `bs` break the files `s` down by extension: every bucket is
/// keyed by a distinct extension that occurs in `s` and carries the exact
/// file count and (clamped) line total of that extension, and every file's
/// extension has exactly one bucket.
pub open spec fn buckets_correct(s: Seq<FileCount>, bs: Seq<ExtensionSummary>) -> bool {
    &&& forall|e: Seq<char>| #[trigger] key_count(bs, e) <= 1
    &&& forall|i: int|
        0 <= i < bs.len() ==> #[trigger] bs[i].file_count as int == ext_count(s, bs[i].extension@)
    &&& forall|i: int|
        0 <= i < bs.len() ==> #[trigger] bs[i].total_lines as int == saturated(
            ext_lines(s, bs[i].extension@),
        )
    &&& forall|i: int| 0 <= i < bs.len() ==> #[trigger] bs[i].file_count > 0
    &&& forall|k: int| 0 <= k < s.len() ==> #[trigger] key_count(bs, ext_of(s[k].path@)) == 1
}

pub proof fn lemma_sum_by_push<T>(s: Seq<T>, f: spec_fn(T) -> int, x: T)
    ensures
        sum_by(s.push(x), f) == sum_by(s, f) + f(x),
{
    assert(s.push(x).drop_last() =~= s);
    assert(s.push(x).last() == x);
}

pub proof fn lemma_sum_by_take_step<T>(s: Seq<T>, f: spec_fn(T) -> int, i: int)
    requires
        0 <= i < s.len(),
    ensures
        sum_by(s.take(i + 1), f) == sum_by(s.take(i), f) + f(s[i]),
{
    assert(s.take(i + 1).drop_last() =~= s.take(i));
    assert(s.take(i + 1).last() == s[i]);
}

pub proof fn lemma_sum_by_remove<T>(s: Seq<T>, f: spec_fn(T) -> int, i: int)
    requires
        0 <= i < s.len(),
    ensures
        sum_by(s.remove(i), f) == sum_by(s, f) - f(s[i]),
    decreases s.len(),
{
    if i == s.len() - 1 {
        assert(s.remove(i) =~= s.drop_last());
    } else {
        assert(s.remove(i).drop_last() =~= s.drop_last().remove(i));
        assert(s.remove(i).last() == s.last());
        lemma_sum_by_remove(s.drop_last(), f, i);
    }
}

pub proof fn lemma_sum_by_update<T>(s: Seq<T>, f: spec_fn(T) -> int, i: int, x: T)
    requires
        0 <= i < s.len(),
    ensures
        sum_by(s.update(i, x), f) == sum_by(s, f) - f(s[i]) + f(x),
    decreases s.len(),
{
    if i == s.len() - 1 {
        assert(s.update(i, x).drop_last() =~= s.drop_last());
        assert(s.update(i, x).last() == x);
    } else {
        assert(s.update(i, x).drop_last() =~= s.drop_last().update(i, x));
        assert(s.update(i, x).last() == s.last());
        lemma_sum_by_update(s.drop_last(), f, i, x);
    }
}

/// Two sequences holding the same elements, in any order, have the same sum.
pub proof fn lemma_sum_by_multiset<T>(a: Seq<T>, b: Seq<T>, f: spec_fn(T) -> int)
    requires
        a.to_multiset() == b.to_multiset(),
    ensures
        sum_by(a, f) == sum_by(b, f),
        a.len() == b.len(),
    decreases a.len(),
{
    broadcast use vstd::seq_lib::group_to_multiset_ensures;

    if a.len() == 0 {
        assert(b.to_multiset().len() == 0);
    } else {
        let x = a.last();
        assert(a[a.len() - 1] == x);
        assert(a.contains(x));
        assert(b.to_multiset().count(x) > 0);
        assert(b.contains(x));
        let j = choose|j: int| 0 <= j < b.len() && b[j] == x;
        assert(a.remove(a.len() - 1) =~= a.drop_last());
        assert(a.drop_last().to_multiset() == a.to_multiset().remove(x));
        assert(b.remove(j).to_multiset() == b.to_multiset().remove(x));
        lemma_sum_by_multiset(a.drop_last(), b.remove(j), f);
        lemma_sum_by_remove(b, f, j);
    }
}

pub proof fn lemma_sum_by_nonneg<T>(s: Seq<T>, f: spec_fn(T) -> int)
    requires
        forall|i: int| 0 <= i < s.len() ==> #[trigger] f(s[i]) >= 0,
    ensures
        sum_by(s, f) >= 0,
    decreases s.len(),
{
    if s.len() > 0 {
        assert(f(s[s.len() - 1]) >= 0);
        lemma_sum_by_nonneg(s.drop_last(), f);
    }
}

pub proof fn lemma_sum_by_le<T>(s: Seq<T>, f: spec_fn(T) -> int, g: spec_fn(T) -> int)
    requires
        forall|i: int| 0 <= i < s.len() ==> #[trigger] f(s[i]) <= #[trigger] g(s[i]),
    ensures
        sum_by(s, f) <= sum_by(s, g),
    decreases s.len(),
{
    if s.len() > 0 {
        assert(f(s[s.len() - 1]) <= g(s[s.len() - 1]));
        lemma_sum_by_le(s.drop_last(), f, g);
    }
}

pub proof fn lemma_sum_by_zero<T>(s: Seq<T>, f: spec_fn(T) -> int)
    requires
        forall|i: int| 0 <= i < s.len() ==> #[trigger] f(s[i]) == 0,
    ensures
        sum_by(s, f) == 0,
    decreases s.len(),
{
    if s.len() > 0 {
        assert(f(s[s.len() - 1]) == 0);
        lemma_sum_by_zero(s.drop_last(), f);
    }
}

/// An indicator sum stays between 0 and the sequence's length.
pub proof fn lemma_ind_bounds<T>(s: Seq<T>, f: spec_fn(T) -> int)
    requires
        forall|x: T| 0 <= #[trigger] f(x) <= 1,
    ensures
        0 <= sum_by(s, f) <= s.len(),
    decreases s.len(),
{
    if s.len() > 0 {
        lemma_ind_bounds(s.drop_last(), f);
    }
}

/// A sequence with a matching element has a positive indicator sum.
pub proof fn lemma_ind_at<T>(s: Seq<T>, f: spec_fn(T) -> int, i: int)
    requires
        forall|x: T| 0 <= #[trigger] f(x) <= 1,
        0 <= i < s.len(),
        f(s[i]) == 1,
    ensures
        sum_by(s, f) >= 1,
{
    lemma_sum_by_remove(s, f, i);
    lemma_ind_bounds(s.remove(i), f);
}

/// A positive indicator sum names a matching element.
pub proof fn lemma_ind_exists<T>(s: Seq<T>, f: spec_fn(T) -> int)
    requires
        forall|x: T| 0 <= #[trigger] f(x) <= 1,
        sum_by(s, f) >= 1,
    ensures
        exists|i: int| 0 <= i < s.len() && f(s[i]) == 1,
    decreases s.len(),
{
    if s.len() > 0 {
        if f(s.last()) == 1 {
            assert(0 <= s.len() - 1 < s.len() && f(s[s.len() - 1]) == 1);
        } else {
            lemma_ind_exists(s.drop_last(), f);
            let i = choose|i: int| 0 <= i < s.drop_last().len() && f(s.drop_last()[i]) == 1;
            assert(0 <= i < s.len() && f(s[i]) == 1);
        }
    }
}

/// When the indicator sum is at most one, two matching indexes are the same.
pub proof fn lemma_ind_unique<T>(s: Seq<T>, f: spec_fn(T) -> int, i: int, j: int)
    requires
        forall|x: T| 0 <= #[trigger] f(x) <= 1,
        sum_by(s, f) <= 1,
        0 <= i < s.len(),
        0 <= j < s.len(),
        f(s[i]) == 1,
        f(s[j]) == 1,
    ensures
        i == j,
{
    if i != j {
        lemma_sum_by_remove(s, f, j);
        let i2 = if i < j {
            i
        } else {
            i - 1
        };
        assert(s.remove(j)[i2] == s[i]);
        lemma_ind_at(s.remove(j), f, i2);
    }
}

/// The line total of one extension's files never exceeds the whole total,
/// and neither is negative.
pub proof fn lemma_ext_lines_within(s: Seq<FileCount>, e: Seq<char>)
    ensures
        0 <= ext_lines(s, e) <= sum_lines(s),
{
    lemma_sum_by_nonneg(s, ext_lines_weight(e));
    lemma_sum_by_le(s, ext_lines_weight(e), lines_weight());
}

pub proof fn lemma_sum_lines_nonneg(s: Seq<FileCount>)
    ensures
        sum_lines(s) >= 0,
{
    lemma_sum_by_nonneg(s, lines_weight());
}

/// The order the configuration asks of two per-file counts: descending by
/// line count, or ascending by path name.
pub open spec fn file_le(by_lines: bool, a: FileCount, b: FileCount) -> bool {
    if by_lines {
        a.lines >= b.lines
    } else {
        lex_le(a.path@, b.path@)
    }
}

pub open spec fn sorted_files(by_lines: bool, s: Seq<FileCount>) -> bool {
    forall|i: int| 0 <= i < s.len() - 1 ==> file_le(by_lines, #[trigger] s[i], s[i + 1])
}

/// Ordered descending by line count.
pub open spec fn sorted_by_lines_desc(s: Seq<FileCount>) -> bool {
    sorted_files(true, s)
}

/// Ordered ascending by path name.
pub open spec fn sorted_by_name(s: Seq<FileCount>) -> bool {
    sorted_files(false, s)
}

/// Buckets ordered descending by their line totals.
pub open spec fn sorted_buckets_desc(s: Seq<ExtensionSummary>) -> bool {
    forall|i: int| 0 <= i < s.len() - 1 ==> (#[trigger] s[i]).total_lines >= s[i + 1].total_lines
}

proof fn lemma_file_le_total(by_lines: bool, a: FileCount, b: FileCount)
    ensures
        file_le(by_lines, a, b) || file_le(by_lines, b, a),
{
    if !by_lines {
        lemma_lex_le_total(a.path@, b.path@);
    }
}

fn file_le_exec(by_lines: bool, a: &FileCount, b: &FileCount) -> (r: bool)
    ensures
        r == file_le(by_lines, *a, *b),
{
    if by_lines {
        a.lines >= b.lines
    } else {
        path_le(&a.path, &b.path)
    }
}

fn insertion_sort_files(v: &mut Vec<FileCount>, by_lines: bool)
    ensures
        final(v)@.to_multiset() == old(v)@.to_multiset(),
        sorted_files(by_lines, final(v)@),
{
    let n = v.len();
    if n == 0 {
        return ;
    }
    let ghost orig = v@;
    let mut i: usize = 1;
    while i < n
        invariant
            1 <= i <= n == v@.len(),
            v@.to_multiset() == orig.to_multiset(),
            sorted_files(by_lines, v@.take(i as int)),
        decreases n - i,
    {
        let ghost before = v@;
        let x = v.remove(i);
        let ghost w = v@;
        proof {
            assert(w.take(i as int) =~= before.take(i as int));
        }
        let mut j: usize = 0;
        while j < i && file_le_exec(by_lines, &v[j], &x)
            invariant
                j <= i < n == w.len() + 1,
                v@ == w,
                forall|k: int| 0 <= k < j ==> file_le(by_lines, #[trigger] w[k], x),
            decreases i - j,
        {
            j = j + 1;
        }
        v.insert(j, x);
        proof {
            broadcast use vstd::seq_lib::group_to_multiset_ensures;
            broadcast use vstd::multiset::group_multiset_axioms;

            let u = w.insert(j as int, x);
            assert(v@ == u);
            vstd::seq_lib::to_multiset_insert(w, j as int, x);
            assert(before[i as int] == x);
            assert(before.contains(x));
            assert(w == before.remove(i as int));
            vstd::seq_lib::to_multiset_remove(before, i as int);
            assert(u.to_multiset() =~= before.to_multiset());
            assert forall|k: int| 0 <= k < i implies file_le(
                by_lines,
                #[trigger] u.take(i + 1)[k],
                u.take(i + 1)[k + 1],
            ) by {
                if k + 1 < j {
                    assert(u[k] == w[k] && u[k + 1] == w[k + 1]);
                    assert(file_le(by_lines, w.take(i as int)[k], w.take(i as int)[k + 1]));
                } else if k + 1 == j {
                    assert(u[k] == w[k] && u[k + 1] == x);
                } else if k == j {
                    assert(u[k] == x && u[k + 1] == w[k]);
                    lemma_file_le_total(by_lines, x, w[k]);
                } else {
                    assert(u[k] == w[k - 1] && u[k + 1] == w[k]);
                    assert(file_le(by_lines, w.take(i as int)[k - 1], w.take(i as int)[k]));
                }
            }
        }
        i = i + 1;
    }
    proof {
        assert(v@.take(n as int) =~= v@);
    }
}

/// Orders the per-file counts as the configuration asks: descending by line
/// count, ascending by path name, or left as they came.
pub fn sort_files(files: &mut Vec<FileCount>, sort: &SortOrder)
    ensures
        final(files)@.to_multiset() == old(files)@.to_multiset(),
        sort is Lines ==> sorted_by_lines_desc(final(files)@),
        sort is Name ==> sorted_by_name(final(files)@),
        sort is Unsorted ==> final(files)@ == old(files)@,
{
    match sort {
        SortOrder::Lines => insertion_sort_files(files, true),
        SortOrder::Name => insertion_sort_files(files, false),
        SortOrder::Unsorted => {},
    }
}

/// Orders the buckets descending by their line totals, ties left in the
/// order the buckets were built in.
pub fn sort_buckets(v: &mut Vec<ExtensionSummary>)
    ensures
        final(v)@.to_multiset() == old(v)@.to_multiset(),
        sorted_buckets_desc(final(v)@),
{
    let n = v.len();
    if n == 0 {
        return ;
    }
    let ghost orig = v@;
    let mut i: usize = 1;
    while i < n
        invariant
            1 <= i <= n == v@.len(),
            v@.to_multiset() == orig.to_multiset(),
            sorted_buckets_desc(v@.take(i as int)),
        decreases n - i,
    {
        let ghost before = v@;
        let x = v.remove(i);
        let ghost w = v@;
        proof {
            assert(w.take(i as int) =~= before.take(i as int));
        }
        let mut j: usize = 0;
        while j < i && v[j].total_lines >= x.total_lines
            invariant
                j <= i < n == w.len() + 1,
                v@ == w,
                forall|k: int| 0 <= k < j ==> (#[trigger] w[k]).total_lines >= x.total_lines,
            decreases i - j,
        {
            j = j + 1;
        }
        v.insert(j, x);
        proof {
            broadcast use vstd::seq_lib::group_to_multiset_ensures;
            broadcast use vstd::multiset::group_multiset_axioms;

            let u = w.insert(j as int, x);
            assert(v@ == u);
            vstd::seq_lib::to_multiset_insert(w, j as int, x);
            assert(before[i as int] == x);
            assert(before.contains(x));
            assert(w == before.remove(i as int));
            vstd::seq_lib::to_multiset_remove(before, i as int);
            assert(u.to_multiset() =~= before.to_multiset());
            assert forall|k: int| 0 <= k < i implies (#[trigger] u.take(i + 1)[k]).total_lines >= u.take(
                i + 1,
            )[k + 1].total_lines by {
                if k + 1 < j {
                    assert(u[k] == w[k] && u[k + 1] == w[k + 1]);
                    assert((w.take(i as int)[k]).total_lines >= w.take(i as int)[k + 1].total_lines);
                } else if k + 1 == j {
                    assert(u[k] == w[k] && u[k + 1] == x);
                } else if k == j {
                    assert(u[k] == x && u[k + 1] == w[k]);
                } else {
                    assert(u[k] == w[k - 1] && u[k + 1] == w[k]);
                    assert((w.take(i as int)[k - 1]).total_lines >= w.take(i as int)[k].total_lines);
                }
            }
        }
        i = i + 1;
    }
    proof {
        assert(v@.take(n as int) =~= v@);
    }
}

/// Adds up the line counts of `files`, clamped to what 64 bits can hold.
pub fn total_lines_of(files: &Vec<FileCount>) -> (t: u64)
    ensures
        t as int == saturated(sum_lines(files@)),
{
    let ghost fseq = files@;
    proof {
        assert(fseq.take(0) =~= Seq::<FileCount>::empty());
    }
    let mut t: u64 = 0;
    let mut k: usize = 0;
    while k < files.len()
        invariant
            k <= fseq.len(),
            files@ == fseq,
            t as int == saturated(sum_lines(fseq.take(k as int))),
        decreases fseq.len() - k,
    {
        proof {
            lemma_sum_by_take_step(fseq, lines_weight(), k as int);
            lemma_sum_lines_nonneg(fseq.take(k as int));
        }
        t = t.saturating_add(files[k].lines);
        k = k + 1;
    }
    proof {
        assert(fseq.take(fseq.len() as int) =~= fseq);
    }
    t
}

/// The first `n` of the report's files, or all of them when it holds fewer:
/// the slice that a "top N" display shows. The report itself is untouched,
/// so its totals keep describing the full result.
pub fn take_top(files: &Vec<FileCount>, n: usize) -> (r: Vec<FileCount>)
    ensures
        r@ == files@.take(
            if n as int <= files@.len() {
                n as int
            } else {
                files@.len() as int
            },
        ),
{
    let ghost fseq = files@;
    let limit = if n < files.len() {
        n
    } else {
        files.len()
    };
    let mut r: Vec<FileCount> = Vec::new();
    let mut k: usize = 0;
    while k < limit
        invariant
            k <= limit <= fseq.len(),
            files@ == fseq,
            r@ =~= fseq.take(k as int),
        decreases limit - k,
    {
        let entry = files[k].clone();
        r.push(entry);
        proof {
            assert(fseq.take(k + 1) =~= fseq.take(k as int).push(fseq[k as int]));
        }
        k = k + 1;
    }
    proof {
        assert(r@ =~= fseq.take(limit as int));
    }
    r
}

/// Groups the per-file counts by extension, one bucket per distinct
/// extension in first-encounter order, each carrying that extension's exact
/// file count and clamped line total. The buckets' file counts add up to the
/// number of files, and their line totals add up to the whole line total
/// whenever that total fits in 64 bits.
pub fn group_by_extension(files: &Vec<FileCount>) -> (bs: Vec<ExtensionSummary>)
    ensures
        buckets_correct(files@, bs@),
        bucket_files_total(bs@) == files@.len(),
        sum_lines(files@) <= u64::MAX ==> bucket_lines_total(bs@) == sum_lines(files@),
{
    let ghost fseq = files@;
    proof {
        assert(fseq.take(0) =~= Seq::<FileCount>::empty());
    }
    let mut bs: Vec<ExtensionSummary> = Vec::new();
    let mut k: usize = 0;
    while k < files.len()
        invariant
            k <= fseq.len(),
            files@ == fseq,
            buckets_correct(fseq.take(k as int), bs@),
            bucket_files_total(bs@) == k,
            sum_lines(fseq.take(k as int)) <= u64::MAX ==> bucket_lines_total(bs@) == sum_lines(
                fseq.take(k as int),
            ),
        decreases fseq.len() - k,
    {
        let f = &files[k];
        let e = extension_of(&f.path);
        let ghost ev = ext_of(fseq[k as int].path@);
        let ghost old_bs = bs@;
        let ghost prefix = fseq.take(k as int);
        proof {
            assert(e@ == ev);
            lemma_sum_by_take_step(fseq, lines_weight(), k as int);
            lemma_sum_lines_nonneg(prefix);
        }
        let mut idx: usize = 0;
        while idx < bs.len() && !(bs[idx].extension == e)
            invariant
                idx <= bs@.len(),
                bs@ == old_bs,
                e@ == ev,
                forall|m: int| 0 <= m < idx ==> (#[trigger] bs@[m]).extension@ != ev,
            decreases bs@.len() - idx,
        {
            idx = idx + 1;
        }
        if idx < bs.len() {
            proof {
                assert(old_bs[idx as int].extension@ == ev);
                assert(key_count(old_bs, ev) <= 1);
                lemma_ind_bounds(prefix, ext_ind(ev));
                lemma_ext_lines_within(prefix, ev);
            }
            let fc = bs[idx].file_count;
            let tl = bs[idx].total_lines;
            let key = bs[idx].extension.clone();
            let updated = ExtensionSummary {
                extension: key,
                file_count: fc + 1,
                total_lines: tl.saturating_add(f.lines),
            };
            let ghost ub = updated;
            bs.set(idx, updated);
            proof {
                let new_bs = old_bs.update(idx as int, ub);
                assert(bs@ == new_bs);
                assert(ub.extension@ == ev);
                assert forall|e2: Seq<char>| #[trigger] key_count(new_bs, e2) == key_count(
                    old_bs,
                    e2,
                ) by {
                    lemma_sum_by_update(old_bs, key_ind(e2), idx as int, ub);
                }
                lemma_sum_by_update(old_bs, files_weight(), idx as int, ub);
                lemma_sum_by_update(old_bs, bucket_lines_weight(), idx as int, ub);
                assert forall|m: int|
                    0 <= m < new_bs.len() && m != idx implies (
                #[trigger] new_bs[m]).extension@ != ev by {
                    if new_bs[m].extension@ == ev {
                        lemma_ind_unique(old_bs, key_ind(ev), m, idx as int);
                    }
                }
                assert forall|m: int|
                    0 <= m < new_bs.len() implies #[trigger] new_bs[m].file_count as int
                    == ext_count(fseq.take(k + 1), new_bs[m].extension@) by {
                    let e2 = new_bs[m].extension@;
                    lemma_sum_by_take_step(fseq, ext_ind(e2), k as int);
                    if m != idx {
                        assert(new_bs[m] == old_bs[m]);
                        assert(e2 != ev);
                    }
                }
                assert forall|m: int|
                    0 <= m < new_bs.len() implies #[trigger] new_bs[m].total_lines as int
                    == saturated(ext_lines(fseq.take(k + 1), new_bs[m].extension@)) by {
                    let e2 = new_bs[m].extension@;
                    lemma_sum_by_take_step(fseq, ext_lines_weight(e2), k as int);
                    if m != idx {
                        assert(new_bs[m] == old_bs[m]);
                        assert(e2 != ev);
                    } else {
                        lemma_ext_lines_within(prefix, ev);
                        lemma_ext_lines_within(fseq.take(k + 1), ev);
                    }
                }
                assert forall|j: int| 0 <= j < k + 1 implies #[trigger] key_count(
                    new_bs,
                    ext_of(fseq.take(k + 1)[j].path@),
                ) == 1 by {
                    if j < k {
                        assert(fseq.take(k + 1)[j] == prefix[j]);
                        assert(key_count(old_bs, ext_of(prefix[j].path@)) == 1);
                    } else {
                        assert(fseq.take(k + 1)[j] == fseq[k as int]);
                        lemma_ind_at(old_bs, key_ind(ev), idx as int);
                        assert(key_count(old_bs, ev) <= 1);
                    }
                }
            }
        } else {
            proof {
                lemma_sum_by_zero(old_bs, key_ind(ev));
                assert(key_count(old_bs, ev) == 0);
                if ext_count(prefix, ev) >= 1 {
                    lemma_ind_exists(prefix, ext_ind(ev));
                    let j = choose|j: int| 0 <= j < prefix.len() && ext_ind(ev)(prefix[j]) == 1;
                    assert(key_count(old_bs, ext_of(prefix[j].path@)) == 1);
                    assert(false);
                }
                lemma_ind_bounds(prefix, ext_ind(ev));
                assert(ext_count(prefix, ev) == 0);
                lemma_sum_by_zero(prefix, ext_lines_weight(ev));
            }
            let fresh = ExtensionSummary { extension: e, file_count: 1, total_lines: f.lines };
            let ghost nb = fresh;
            bs.push(fresh);
            proof {
                let new_bs = old_bs.push(nb);
                assert(bs@ == new_bs);
                assert(nb.extension@ == ev);
                assert forall|e2: Seq<char>| #[trigger] key_count(new_bs, e2) == key_count(
                    old_bs,
                    e2,
                ) + key_ind(e2)(nb) by {
                    lemma_sum_by_push(old_bs, key_ind(e2), nb);
                }
                lemma_sum_by_push(old_bs, files_weight(), nb);
                lemma_sum_by_push(old_bs, bucket_lines_weight(), nb);
                assert forall|m: int|
                    0 <= m < new_bs.len() implies #[trigger] new_bs[m].file_count as int
                    == ext_count(fseq.take(k + 1), new_bs[m].extension@) by {
                    let e2 = new_bs[m].extension@;
                    lemma_sum_by_take_step(fseq, ext_ind(e2), k as int);
                    if m < old_bs.len() {
                        assert(new_bs[m] == old_bs[m]);
                        assert(e2 != ev);
                    } else {
                        assert(new_bs[m] == nb);
                    }
                }
                assert forall|m: int|
                    0 <= m < new_bs.len() implies #[trigger] new_bs[m].total_lines as int
                    == saturated(ext_lines(fseq.take(k + 1), new_bs[m].extension@)) by {
                    let e2 = new_bs[m].extension@;
                    lemma_sum_by_take_step(fseq, ext_lines_weight(e2), k as int);
                    if m < old_bs.len() {
                        assert(new_bs[m] == old_bs[m]);
                        assert(e2 != ev);
                    } else {
                        assert(new_bs[m] == nb);
                    }
                }
                assert forall|j: int| 0 <= j < k + 1 implies #[trigger] key_count(
                    new_bs,
                    ext_of(fseq.take(k + 1)[j].path@),
                ) == 1 by {
                    if j < k {
                        assert(fseq.take(k + 1)[j] == prefix[j]);
                        let e2 = ext_of(prefix[j].path@);
                        assert(key_count(old_bs, e2) == 1);
                        lemma_ind_exists(old_bs, key_ind(e2));
                        assert(e2 != ev);
                    } else {
                        assert(fseq.take(k + 1)[j] == fseq[k as int]);
                    }
                }
            }
        }
        k = k + 1;
    }
    proof {
        assert(fseq.take(fseq.len() as int) =~= fseq);
    }
    bs
}


/// Reordering the per-file counts, by any of the sort modes or otherwise,
/// changes neither the file total, nor the line total, nor any extension's
/// file count or line total.
pub proof fn lemma_reorder_preserves_totals(a: Seq<FileCount>, b: Seq<FileCount>, e: Seq<char>)
    requires
        a.to_multiset() == b.to_multiset(),
    ensures
        a.len() == b.len(),
        sum_lines(a) == sum_lines(b),
        ext_count(a, e) == ext_count(b, e),
        ext_lines(a, e) == ext_lines(b, e),
{
    lemma_sum_by_multiset(a, b, lines_weight());
    lemma_sum_by_multiset(a, b, ext_ind(e));
    lemma_sum_by_multiset(a, b, ext_lines_weight(e));
}

/// Reordering the per-file counts accepts exactly the same extension
/// breakdowns: a correct one for the files in one order is correct for them
/// in any other.
pub proof fn lemma_reorder_preserves_buckets(
    a: Seq<FileCount>,
    b: Seq<FileCount>,
    bs: Seq<ExtensionSummary>,
)
    requires
        a.to_multiset() == b.to_multiset(),
        buckets_correct(a, bs),
    ensures
        buckets_correct(b, bs),
{
    broadcast use vstd::seq_lib::group_to_multiset_ensures;

    assert forall|i: int| 0 <= i < bs.len() implies #[trigger] bs[i].file_count as int == ext_count(
        b,
        bs[i].extension@,
    ) by {
        lemma_reorder_preserves_totals(a, b, bs[i].extension@);
    }
    assert forall|i: int| 0 <= i < bs.len() implies #[trigger] bs[i].total_lines as int == saturated(
        ext_lines(b, bs[i].extension@),
    ) by {
        lemma_reorder_preserves_totals(a, b, bs[i].extension@);
    }
    assert forall|k: int| 0 <= k < b.len() implies #[trigger] key_count(
        bs,
        ext_of(b[k].path@),
    ) == 1 by {
        assert(b.contains(b[k]));
        assert(a.to_multiset().count(b[k]) > 0);
        assert(a.contains(b[k]));
        let j = choose|j: int| 0 <= j < a.len() && a[j] == b[k];
        assert(key_count(bs, ext_of(a[j].path@)) == 1);
    }
}

/// A correct extension breakdown stays correct when its buckets are
/// reordered.
pub proof fn lemma_buckets_reorder(
    s: Seq<FileCount>,
    bs1: Seq<ExtensionSummary>,
    bs2: Seq<ExtensionSummary>,
)
    requires
        buckets_correct(s, bs1),
        bs1.to_multiset() == bs2.to_multiset(),
    ensures
        buckets_correct(s, bs2),
        bucket_files_total(bs2) == bucket_files_total(bs1),
        bucket_lines_total(bs2) == bucket_lines_total(bs1),
{
    broadcast use vstd::seq_lib::group_to_multiset_ensures;

    lemma_sum_by_multiset(bs1, bs2, files_weight());
    lemma_sum_by_multiset(bs1, bs2, bucket_lines_weight());
    assert forall|e: Seq<char>| #[trigger] key_count(bs2, e) <= 1 by {
        lemma_sum_by_multiset(bs1, bs2, key_ind(e));
        assert(key_count(bs1, e) <= 1);
        assert(key_count(bs2, e) == sum_by(bs2, key_ind(e)));
        assert(key_count(bs1, e) == sum_by(bs1, key_ind(e)));
    }
    assert forall|i: int|
        0 <= i < bs2.len() implies #[trigger] bs2[i].file_count as int == ext_count(
        s,
        bs2[i].extension@,
    ) && bs2[i].file_count > 0 by {
        assert(bs2.contains(bs2[i]));
        assert(bs1.to_multiset().count(bs2[i]) > 0);
        assert(bs1.contains(bs2[i]));
        let j = choose|j: int| 0 <= j < bs1.len() && bs1[j] == bs2[i];
        assert(bs1[j].file_count as int == ext_count(s, bs1[j].extension@));
        assert(bs1[j].file_count > 0);
    }
    assert forall|i: int|
        0 <= i < bs2.len() implies #[trigger] bs2[i].total_lines as int == saturated(
        ext_lines(s, bs2[i].extension@),
    ) by {
        assert(bs2.contains(bs2[i]));
        assert(bs1.to_multiset().count(bs2[i]) > 0);
        assert(bs1.contains(bs2[i]));
        let j = choose|j: int| 0 <= j < bs1.len() && bs1[j] == bs2[i];
        assert(bs1[j].total_lines as int == saturated(ext_lines(s, bs1[j].extension@)));
    }
    assert forall|k: int| 0 <= k < s.len() implies #[trigger] key_count(
        bs2,
        ext_of(s[k].path@),
    ) == 1 by {
        let e = ext_of(s[k].path@);
        lemma_sum_by_multiset(bs1, bs2, key_ind(e));
        assert(key_count(bs1, e) == 1);
        assert(key_count(bs2, e) == sum_by(bs2, key_ind(e)));
        assert(key_count(bs1, e) == sum_by(bs1, key_ind(e)));
    }
}


/// Whether an element equals `v`: 1 when it does, 0 otherwise.
pub open spec fn eq_ind<T>(v: T) -> spec_fn(T) -> int {
    |x: T|
        if x == v {
            1int
        } else {
            0int
        }
}

/// A value's multiplicity in a sequence's multiset is the sum of its
/// equality indicator over the sequence.
pub proof fn lemma_multiset_count_as_sum<T>(s: Seq<T>, v: T)
    ensures
        s.to_multiset().count(v) == sum_by(s, eq_ind(v)),
    decreases s.len(),
{
    broadcast use vstd::seq_lib::group_to_multiset_ensures;
    broadcast use vstd::multiset::group_multiset_axioms;

    if s.len() == 0 {
        assert(!s.contains(v));
        assert(s.to_multiset().count(v) == 0);
    } else {
        let t = s.drop_last();
        assert(t.push(s.last()) =~= s);
        assert(t.push(s.last()).to_multiset() == t.to_multiset().insert(s.last()));
        vstd::multiset::lemma_insert_increases_count_by_1(t.to_multiset(), s.last());
        if s.last() != v {
            vstd::multiset::lemma_insert_other_elements_unchanged(t.to_multiset(), s.last(), v);
        }
        lemma_multiset_count_as_sum(t, v);
    }
}

/// When no two distinct elements both match, the indicator sum is at most
/// one.
proof fn lemma_ind_at_most_one<T>(s: Seq<T>, f: spec_fn(T) -> int)
    requires
        forall|x: T| 0 <= #[trigger] f(x) <= 1,
        forall|i: int, j: int|
            0 <= i < s.len() && 0 <= j < s.len() && #[trigger] f(s[i]) == 1 && #[trigger] f(s[j])
                == 1 ==> i == j,
    ensures
        sum_by(s, f) <= 1,
{
    lemma_ind_bounds(s, f);
    if sum_by(s, f) >= 2 {
        lemma_ind_exists(s, f);
        let i = choose|i: int| 0 <= i < s.len() && f(s[i]) == 1;
        lemma_sum_by_remove(s, f, i);
        lemma_ind_exists(s.remove(i), f);
        let i2 = choose|i2: int| 0 <= i2 < s.remove(i).len() && f(s.remove(i)[i2]) == 1;
        let orig = if i2 < i {
            i2
        } else {
            i2 + 1
        };
        assert(s.remove(i)[i2] == s[orig]);
        assert(orig != i);
        assert(false);
    }
}

/// One bucket reduced to plain values: its key's characters, its file count
/// and its line total.
pub open spec fn bucket_view(b: ExtensionSummary) -> (Seq<char>, u64, u64) {
    (b.extension@, b.file_count, b.total_lines)
}

/// `bucket_view` as a mapping value.
pub open spec fn bucket_view_fn() -> spec_fn(ExtensionSummary) -> (Seq<char>, u64, u64) {
    |b: ExtensionSummary| bucket_view(b)
}

/// The buckets reduced to plain values, in order.
pub open spec fn bucket_views(bs: Seq<ExtensionSummary>) -> Seq<(Seq<char>, u64, u64)> {
    bs.map_values(bucket_view_fn())
}

/// A bucket of one correct breakdown recurs, with the same plain values, in
/// any correct breakdown of a reordered copy of the same files.
proof fn lemma_bucket_view_transfer(
    a: Seq<FileCount>,
    b: Seq<FileCount>,
    bs1: Seq<ExtensionSummary>,
    bs2: Seq<ExtensionSummary>,
    i: int,
)
    requires
        a.to_multiset() == b.to_multiset(),
        buckets_correct(a, bs1),
        buckets_correct(b, bs2),
        0 <= i < bs1.len(),
    ensures
        exists|j: int| 0 <= j < bs2.len() && bucket_view(bs2[j]) == bucket_view(bs1[i]),
{
    let e = bs1[i].extension@;
    assert(bs1[i].file_count as int == ext_count(a, e));
    assert(bs1[i].file_count > 0);
    lemma_sum_by_multiset(a, b, ext_ind(e));
    lemma_sum_by_multiset(a, b, ext_lines_weight(e));
    assert(ext_count(b, e) >= 1);
    lemma_ind_exists(b, ext_ind(e));
    let k = choose|k: int| 0 <= k < b.len() && ext_ind(e)(b[k]) == 1;
    assert(ext_of(b[k].path@) == e);
    assert(key_count(bs2, ext_of(b[k].path@)) == 1);
    lemma_ind_exists(bs2, key_ind(e));
    let j = choose|j: int| 0 <= j < bs2.len() && key_ind(e)(bs2[j]) == 1;
    assert(bs2[j].extension@ == e);
    assert(bs2[j].file_count as int == ext_count(b, e));
    assert(bs2[j].total_lines as int == saturated(ext_lines(b, e)));
    assert(bucket_view(bs2[j]) == bucket_view(bs1[i]));
}

proof fn lemma_views_count(
    a: Seq<FileCount>,
    b: Seq<FileCount>,
    bs1: Seq<ExtensionSummary>,
    bs2: Seq<ExtensionSummary>,
    v: (Seq<char>, u64, u64),
)
    requires
        a.to_multiset() == b.to_multiset(),
        buckets_correct(a, bs1),
        buckets_correct(b, bs2),
    ensures
        sum_by(bucket_views(bs1), eq_ind(v)) == sum_by(bucket_views(bs2), eq_ind(v)),
{
    let v1 = bucket_views(bs1);
    let v2 = bucket_views(bs2);
    assert forall|m: int, m2: int|
        0 <= m < v1.len() && 0 <= m2 < v1.len() && #[trigger] eq_ind(v)(v1[m]) == 1 && #[trigger] eq_ind(
            v,
        )(v1[m2]) == 1 implies m == m2 by {
        assert(bs1[m].extension@ == bs1[m2].extension@);
        assert(key_count(bs1, bs1[m].extension@) <= 1);
        assert(key_count(bs1, bs1[m].extension@) == sum_by(bs1, key_ind(bs1[m].extension@)));
        lemma_ind_unique(bs1, key_ind(bs1[m].extension@), m, m2);
    }
    assert forall|m: int, m2: int|
        0 <= m < v2.len() && 0 <= m2 < v2.len() && #[trigger] eq_ind(v)(v2[m]) == 1 && #[trigger] eq_ind(
            v,
        )(v2[m2]) == 1 implies m == m2 by {
        assert(bs2[m].extension@ == bs2[m2].extension@);
        assert(key_count(bs2, bs2[m].extension@) <= 1);
        assert(key_count(bs2, bs2[m].extension@) == sum_by(bs2, key_ind(bs2[m].extension@)));
        lemma_ind_unique(bs2, key_ind(bs2[m].extension@), m, m2);
    }
    lemma_ind_at_most_one(v1, eq_ind(v));
    lemma_ind_at_most_one(v2, eq_ind(v));
    lemma_ind_bounds(v1, eq_ind(v));
    lemma_ind_bounds(v2, eq_ind(v));
    if sum_by(v1, eq_ind(v)) >= 1 {
        lemma_ind_exists(v1, eq_ind(v));
        let i = choose|i: int| 0 <= i < v1.len() && eq_ind(v)(v1[i]) == 1;
        lemma_bucket_view_transfer(a, b, bs1, bs2, i);
        let j = choose|j: int| 0 <= j < bs2.len() && bucket_view(bs2[j]) == bucket_view(bs1[i]);
        lemma_ind_at(v2, eq_ind(v), j);
    }
    if sum_by(v2, eq_ind(v)) >= 1 {
        lemma_ind_exists(v2, eq_ind(v));
        let j = choose|j: int| 0 <= j < v2.len() && eq_ind(v)(v2[j]) == 1;
        lemma_bucket_view_transfer(b, a, bs2, bs1, j);
        let i = choose|i: int| 0 <= i < bs1.len() && bucket_view(bs1[i]) == bucket_view(bs2[j]);
        lemma_ind_at(v1, eq_ind(v), i);
    }
}

/// The per-file counts determine the extension breakdown: two correct
/// breakdowns of reordered copies of the same counts hold the same buckets,
/// as a multiset of (key, file count, line total) values.
pub proof fn lemma_reorder_determines_buckets(
    a: Seq<FileCount>,
    b: Seq<FileCount>,
    bs1: Seq<ExtensionSummary>,
    bs2: Seq<ExtensionSummary>,
)
    requires
        a.to_multiset() == b.to_multiset(),
        buckets_correct(a, bs1),
        buckets_correct(b, bs2),
    ensures
        bucket_views(bs1).to_multiset() == bucket_views(bs2).to_multiset(),
{
    broadcast use vstd::multiset::group_multiset_axioms;

    let v1 = bucket_views(bs1);
    let v2 = bucket_views(bs2);
    assert forall|v: (Seq<char>, u64, u64)| #[trigger] v1.to_multiset().count(v)
        == v2.to_multiset().count(v) by {
        lemma_multiset_count_as_sum(v1, v);
        lemma_multiset_count_as_sum(v2, v);
        lemma_views_count(a, b, bs1, bs2, v);
    }
    assert(v1.to_multiset() =~= v2.to_multiset());
}

} // verus!
