//! Journal file rotation and vacuum.
//!
//! When the active file exceeds the size limit it is archived under a
//! timestamped name and a fresh file is opened. Vacuum removes archives,
//! oldest first, while they use too much space or are too old.

use vstd::prelude::*;

use crate::text;

verus! {

/// Default maximum size of a single active journal file (128 MiB).
pub const DEFAULT_MAX_FILE_SIZE: u64 = 134_217_728;

/// Default maximum total journal disk use (4 GiB).
pub const DEFAULT_MAX_USE: u64 = 4_294_967_296;

/// Whether a file that has grown to `bytes_written` is to be rotated: once it
/// exceeds the limit, and not before.
pub fn needs_rotation(bytes_written: u64, max_file_size: u64) -> (r: bool)
    ensures
        r == (bytes_written > max_file_size),
{
    bytes_written > max_file_size
}

/// A number in decimal, filled up with zeroes in front to `width` digits.
pub open spec fn padded(n: nat, width: nat) -> Seq<char> {
    let digits = text::decimal(n);
    if digits.len() >= width {
        digits
    } else {
        Seq::new((width - digits.len()) as nat, |i: int| '0') + digits
    }
}

/// The name of an archive made at `timestamp` microseconds.
pub open spec fn archive(timestamp: nat) -> Seq<char> {
    "archive-"@ + padded(timestamp, 20) + ".journal"@
}

/// The name of an archive made at `timestamp` microseconds.
pub fn archive_name(timestamp: u128) -> (r: String)
    ensures
        r@ == archive(timestamp as nat),
{
    let digits = text::decimal_of(timestamp);
    let count: usize = digits.as_str().unicode_len();
    let mut out = "archive-".to_owned();
    let ghost head = out@;
    let mut i: usize = count;
    assert(out@ =~= head + Seq::new(0, |i: int| '0'));
    while i < 20
        invariant
            count <= i,
            i <= 20 || i == count,
            out@ == head + Seq::new((i - count) as nat, |i: int| '0'),
        decreases 20 - i,
    {
        out.push('0');
        assert(Seq::new((i + 1 - count) as nat, |i: int| '0') =~= Seq::new((i - count) as nat, |i: int| '0').push('0'));
        assert(out@ =~= head + Seq::new((i + 1 - count) as nat, |i: int| '0'));
        i += 1;
    }
    out.push_str(digits.as_str());
    out.push_str(".journal");
    assert(out@ =~= archive(timestamp as nat));
    out
}

/// Whether a file name is that of an archive.
pub open spec fn is_archive(name: Seq<char>) -> bool {
    "archive-"@.is_prefix_of(name) && ".journal"@.is_suffix_of(name)
}

/// Whether a file name is that of an archive.
pub fn is_archive_name(name: &str) -> (r: bool)
    ensures
        r == is_archive(name@),
{
    text::starts_with(name, "archive-") && text::ends_with(name, ".journal")
}

/// Every name that rotation gives is recognised as that of an archive.
pub proof fn law_rotated_files_are_archives(timestamp: nat)
    ensures
        is_archive(archive(timestamp)),
{
    let name = archive(timestamp);
    assert("archive-"@ =~= name.subrange(0, "archive-"@.len() as int));
    assert(".journal"@ =~= name.subrange(name.len() - ".journal"@.len(), name.len() as int));
}

/// An archived journal file.
#[derive(Debug)]
pub struct Archive {
    pub path: String,
    /// Modification time in seconds since the Unix epoch.
    pub mtime_secs: u64,
    /// Size in bytes.
    pub size: u64,
}

impl Clone for Archive {
    fn clone(&self) -> (r: Self)
        ensures
            r == *self,
    {
        Archive { path: self.path.clone(), mtime_secs: self.mtime_secs, size: self.size }
    }
}

/// An archive put in its place among others, behind those that are not newer.
pub open spec fn inserted(sorted: Seq<Archive>, archive: Archive) -> Seq<Archive>
    decreases sorted.len(),
{
    if sorted.len() == 0 || sorted.last().mtime_secs <= archive.mtime_secs {
        sorted.push(archive)
    } else {
        inserted(sorted.drop_last(), archive).push(sorted.last())
    }
}

/// Archives by age, oldest first; of equal age in the order given.
pub open spec fn by_age(archives: Seq<Archive>) -> Seq<Archive>
    decreases archives.len(),
{
    if archives.len() == 0 {
        archives
    } else {
        inserted(by_age(archives.drop_last()), archives.last())
    }
}

/// The space that archives take.
pub open spec fn total_size(archives: Seq<Archive>) -> nat
    decreases archives.len(),
{
    if archives.len() == 0 {
        0
    } else {
        total_size(archives.drop_first()) + archives[0].size as nat
    }
}

/// Whether an archive is past its retention. No limit applies where it is zero.
pub open spec fn expired(archive: Archive, max_retention_secs: u64, now_secs: u64) -> bool {
    max_retention_secs > 0 && now_secs - archive.mtime_secs > max_retention_secs
}

/// The archives that go, of those by age that take `total` bytes: from the
/// oldest on, while they take more than `max_use` or the next is expired.
pub open spec fn vacuumed(
    archives: Seq<Archive>,
    total: nat,
    max_use: u64,
    max_retention_secs: u64,
    now_secs: u64,
) -> Seq<Archive>
    decreases archives.len(),
{
    if archives.len() == 0 || (total <= max_use && !expired(archives[0], max_retention_secs, now_secs)) {
        Seq::empty()
    } else {
        seq![archives[0]] + vacuumed(
            archives.drop_first(),
            (total - archives[0].size) as nat,
            max_use,
            max_retention_secs,
            now_secs,
        )
    }
}

proof fn lemma_inserted(sorted: Seq<Archive>, archive: Archive)
    ensures
        inserted(sorted, archive).len() == sorted.len() + 1,
        inserted(sorted, archive).to_multiset() == sorted.to_multiset().insert(archive),
        total_size(inserted(sorted, archive)) == total_size(sorted) + archive.size,
        is_sorted(sorted) ==> is_sorted(inserted(sorted, archive)),
        sorted.len() > 0 ==> inserted(sorted, archive).last().mtime_secs >= sorted.last().mtime_secs,
        inserted(sorted, archive).last().mtime_secs >= archive.mtime_secs,
        inserted(sorted, archive).last() == archive || (sorted.len() > 0 && inserted(sorted, archive).last()
            == sorted.last()),
    decreases sorted.len(),
{
    broadcast use vstd::seq_lib::group_to_multiset_ensures;

    if sorted.len() == 0 || sorted.last().mtime_secs <= archive.mtime_secs {
        lemma_total_push(sorted, archive);
    } else {
        let front = sorted.drop_last();
        lemma_inserted(front, archive);
        let placed = inserted(front, archive);
        lemma_total_push(placed, sorted.last());
        lemma_total_push(front, sorted.last());
        assert(sorted =~= front.push(sorted.last()));
        if is_sorted(sorted) {
            assert(is_sorted(front)) by {
                assert forall|i: int, j: int| 0 <= i < j < front.len() implies (#[trigger] front[i]).mtime_secs <= (
                #[trigger] front[j]).mtime_secs by {
                    assert(sorted[i].mtime_secs <= sorted[j].mtime_secs);
                }
            }
            let all = placed.push(sorted.last());
            assert(placed.last().mtime_secs <= sorted.last().mtime_secs) by {
                if front.len() > 0 {
                    assert(sorted[front.len() - 1].mtime_secs <= sorted[sorted.len() - 1].mtime_secs);
                }
            }
            assert forall|i: int, j: int| 0 <= i < j < all.len() implies (#[trigger] all[i]).mtime_secs <= (
            #[trigger] all[j]).mtime_secs by {
                if j == placed.len() {
                    if i < placed.len() - 1 {
                        assert(placed[i].mtime_secs <= placed[placed.len() - 1].mtime_secs);
                    }
                }
            }
        }
    }
}

proof fn lemma_total_push(archives: Seq<Archive>, archive: Archive)
    ensures
        total_size(archives.push(archive)) == total_size(archives) + archive.size,
    decreases archives.len(),
{
    let all = archives.push(archive);
    if archives.len() > 0 {
        assert(all.drop_first() =~= archives.drop_first().push(archive));
        lemma_total_push(archives.drop_first(), archive);
    } else {
        assert(all.drop_first() =~= archives);
    }
}

/// Whether archives stand oldest first.
pub open spec fn is_sorted(archives: Seq<Archive>) -> bool {
    forall|i: int, j: int|
        0 <= i < j < archives.len() ==> (#[trigger] archives[i]).mtime_secs <= (#[trigger] archives[j]).mtime_secs
}

/// Putting archives in order of age loses none, adds none, and leaves the
/// oldest first.
pub proof fn law_by_age_sorts(archives: Seq<Archive>)
    ensures
        is_sorted(by_age(archives)),
        by_age(archives).to_multiset() == archives.to_multiset(),
        total_size(by_age(archives)) == total_size(archives),
    decreases archives.len(),
{
    broadcast use vstd::seq_lib::group_to_multiset_ensures;

    if archives.len() > 0 {
        let front = archives.drop_last();
        law_by_age_sorts(front);
        lemma_inserted(by_age(front), archives.last());
        lemma_total_push(front, archives.last());
        assert(archives =~= front.push(archives.last()));
    }
}

/// Vacuum removes a run of archives from the front. What stays takes no more
/// than `max_use`, and the first of it is not expired. Where the archives stand
/// oldest first, none that stays is.
pub proof fn law_vacuum_meets_the_limits(
    archives: Seq<Archive>,
    max_use: u64,
    max_retention_secs: u64,
    now_secs: u64,
)
    ensures
        ({
            let gone = vacuumed(archives, total_size(archives), max_use, max_retention_secs, now_secs);
            let kept = archives.skip(gone.len() as int);
            &&& gone.len() <= archives.len()
            &&& gone == archives.take(gone.len() as int)
            &&& total_size(kept) <= max_use
            &&& kept.len() > 0 ==> !expired(kept[0], max_retention_secs, now_secs)
            &&& is_sorted(archives) ==> forall|i: int|
                0 <= i < kept.len() ==> !expired(#[trigger] kept[i], max_retention_secs, now_secs)
        }),
    decreases archives.len(),
{
    let gone = vacuumed(archives, total_size(archives), max_use, max_retention_secs, now_secs);
    if archives.len() == 0 || (total_size(archives) <= max_use && !expired(
        archives[0],
        max_retention_secs,
        now_secs,
    )) {
        assert(archives.skip(0) =~= archives);
        assert(gone =~= archives.take(0));
    } else {
        let rest = archives.drop_first();
        law_vacuum_meets_the_limits(rest, max_use, max_retention_secs, now_secs);
        let more = vacuumed(rest, total_size(rest), max_use, max_retention_secs, now_secs);
        assert(gone =~= seq![archives[0]] + more);
        assert(archives.skip(gone.len() as int) =~= rest.skip(more.len() as int));
        assert(gone =~= archives.take(gone.len() as int)) by {
            assert forall|i: int| 0 <= i < gone.len() implies gone[i] == archives[i] by {
                if i > 0 {
                    assert(more[i - 1] == rest[i - 1]);
                }
            }
        }
    }
    let kept = archives.skip(gone.len() as int);
    if is_sorted(archives) {
        assert forall|i: int| 0 <= i < kept.len() implies !expired(#[trigger] kept[i], max_retention_secs, now_secs) by {
            if i > 0 {
                assert(archives[gone.len() as int].mtime_secs <= archives[gone.len() + i].mtime_secs);
            }
            assert(!expired(kept[0], max_retention_secs, now_secs));
        }
    }
}

fn sort_by_age(archives: &Vec<Archive>) -> (r: Vec<Archive>)
    ensures
        r@ == by_age(archives@),
{
    let mut sorted: Vec<Archive> = Vec::new();
    let mut i: usize = 0;
    assert(sorted@ =~= by_age(archives@.take(0)));
    while i < archives.len()
        invariant
            i <= archives@.len(),
            sorted@ == by_age(archives@.take(i as int)),
        decreases archives@.len() - i,
    {
        let ghost before = sorted@;
        let archive = archives[i].clone();
        let mut at: usize = sorted.len();
        assert(before.take(at as int) =~= before);
        assert(inserted(before, archive) =~= inserted(before.take(at as int), archive) + before.skip(at as int));
        while at > 0 && sorted[at - 1].mtime_secs > archive.mtime_secs
            invariant
                sorted@ == before,
                at <= before.len(),
                inserted(before, archive) == inserted(before.take(at as int), archive) + before.skip(at as int),
            decreases at,
        {
            let ghost part = before.take(at as int);
            assert(part.drop_last() =~= before.take(at - 1));
            assert(inserted(before.take(at - 1), archive).push(part.last()) + before.skip(at as int) =~= inserted(
                before.take(at - 1),
                archive,
            ) + before.skip(at - 1));
            at -= 1;
        }
        sorted.insert(at, archive);
        assert(sorted@ =~= before.take(at as int).push(archive) + before.skip(at as int));
        assert(archives@.take(i + 1).drop_last() =~= archives@.take(i as int));
        i += 1;
    }
    assert(archives@.take(i as int) =~= archives@);
    sorted
}

/// Which archives to remove, oldest first, until they take no more than
/// `max_use` bytes and none in front is expired.
pub fn vacuum(archives: &Vec<Archive>, max_use: u64, max_retention_secs: u64, now_secs: u64) -> (r: Vec<Archive>)
    requires
        total_size(archives@) <= u64::MAX,
    ensures
        r@ == vacuumed(by_age(archives@), total_size(archives@), max_use, max_retention_secs, now_secs),
{
    let sorted = sort_by_age(archives);
    proof {
        law_by_age_sorts(archives@);
    }
    let mut total: u64 = 0;
    let mut i: usize = sorted.len();
    assert(sorted@.skip(i as int) =~= Seq::empty());
    while i > 0
        invariant
            i <= sorted@.len(),
            total_size(sorted@) <= u64::MAX,
            total == total_size(sorted@.skip(i as int)),
        decreases i,
    {
        proof {
            assert(sorted@.skip(i - 1).drop_first() =~= sorted@.skip(i as int));
            lemma_total_skip(sorted@, i - 1);
        }
        i -= 1;
        total = total + sorted[i].size;
    }
    assert(sorted@.skip(0) =~= sorted@);
    let mut gone: Vec<Archive> = Vec::new();
    let ghost whole = vacuumed(sorted@, total_size(sorted@), max_use, max_retention_secs, now_secs);
    assert(whole =~= gone@ + whole);
    while i < sorted.len()
        invariant_except_break
            i <= sorted@.len(),
            total == total_size(sorted@.skip(i as int)),
            whole == gone@ + vacuumed(
                sorted@.skip(i as int),
                total as nat,
                max_use,
                max_retention_secs,
                now_secs,
            ),
        ensures
            whole == gone@,
        decreases sorted@.len() - i,
    {
        let archive = sorted[i].clone();
        let age: u64 = if now_secs > archive.mtime_secs {
            now_secs - archive.mtime_secs
        } else {
            0
        };
        let too_old = max_retention_secs > 0 && age > max_retention_secs;
        let ghost left = sorted@.skip(i as int);
        assert(left[0] == archive);
        assert(left.drop_first() =~= sorted@.skip(i + 1));
        if total > max_use || too_old {
            let ghost before = gone@;
            total = total - archive.size;
            gone.push(archive);
            i += 1;
            assert(whole =~= gone@ + vacuumed(
                sorted@.skip(i as int),
                total as nat,
                max_use,
                max_retention_secs,
                now_secs,
            ));
        } else {
            assert(whole =~= gone@);
            break;
        }
    }
    gone
}

proof fn lemma_total_skip(archives: Seq<Archive>, i: int)
    requires
        0 <= i <= archives.len(),
    ensures
        total_size(archives.skip(i)) <= total_size(archives),
    decreases i,
{
    if i == 0 {
        assert(archives.skip(0) =~= archives);
    } else {
        lemma_total_skip(archives, i - 1);
        assert(archives.skip(i - 1).drop_first() =~= archives.skip(i));
    }
}

/// Vacuum goes no further than it must: each archive that goes is expired, or
/// what was left with it took more than allowed.
pub proof fn law_vacuum_removes_no_more_than_it_must(
    archives: Seq<Archive>,
    max_use: u64,
    max_retention_secs: u64,
    now_secs: u64,
    i: int,
)
    requires
        0 <= i < vacuumed(archives, total_size(archives), max_use, max_retention_secs, now_secs).len(),
    ensures
        i < archives.len(),
        vacuumed(archives, total_size(archives), max_use, max_retention_secs, now_secs)[i] == archives[i],
        total_size(archives.skip(i)) > max_use || (max_retention_secs > 0 && now_secs - archives[i].mtime_secs > max_retention_secs),
    decreases archives.len(),
{
    let rest = archives.drop_first();
    if i == 0 {
        assert(archives.skip(0) =~= archives);
    } else {
        law_vacuum_removes_no_more_than_it_must(rest, max_use, max_retention_secs, now_secs, i - 1);
        assert(archives.skip(i) =~= rest.skip(i - 1));
    }
}

/// An archive is expired where there is a limit and it is older than that.
pub proof fn law_when_an_archive_is_expired(archive: Archive, max_retention_secs: u64, now_secs: u64)
    ensures
        expired(archive, max_retention_secs, now_secs) <==> max_retention_secs > 0 && archive.mtime_secs + max_retention_secs < now_secs,
{
}

/// What archives take is the sum of their sizes.
pub proof fn law_sizes_add_up(archives: Seq<Archive>, archive: Archive)
    ensures
        total_size(Seq::empty()) == 0,
        total_size(archives.push(archive)) == total_size(archives) + archive.size,
{
    lemma_total_push(archives, archive);
}

/// Archives of the same age stay in the order in which they stood.
pub proof fn law_archives_of_one_age_keep_their_order(archives: Seq<Archive>, archive: Archive)
    requires
        forall|i: int| 0 <= i < archives.len() ==> (#[trigger] archives[i]).mtime_secs <= archive.mtime_secs,
    ensures
        by_age(archives.push(archive)) == by_age(archives).push(archive),
{
    broadcast use vstd::seq_lib::group_to_multiset_ensures;

    let sorted = by_age(archives);
    law_by_age_sorts(archives);
    assert(archives.push(archive).drop_last() =~= archives);
    if sorted.len() > 0 {
        assert(sorted.to_multiset().contains(sorted[sorted.len() - 1]));
        assert(archives.to_multiset().contains(sorted.last()));
        assert(archives.contains(sorted.last()));
    }
}

/// The name of an archive holds its time in at least twenty digits, so that
/// later archives have later names.
pub proof fn law_archives_are_named_by_their_time(timestamp: nat)
    ensures
        archive(timestamp) == "archive-"@ + padded(timestamp, 20) + ".journal"@,
        padded(timestamp, 20).len() >= 20,
        text::number(padded(timestamp, 20)) == Some(timestamp),
{
    text::lemma_decimal_reads_back(timestamp);
    let digits = text::decimal(timestamp);
    if digits.len() < 20 {
        let zeros = Seq::new((20 - digits.len()) as nat, |i: int| '0');
        lemma_leading_zeros(zeros, digits);
    }
    assert(text::is_digit(padded(timestamp, 20)[0]));
}

proof fn lemma_leading_zeros(zeros: Seq<char>, digits: Seq<char>)
    requires
        text::is_digits(digits),
        forall|i: int| 0 <= i < zeros.len() ==> #[trigger] zeros[i] == '0',
    ensures
        text::is_digits(zeros + digits),
        text::digits_value(zeros + digits) == text::digits_value(digits),
    decreases digits.len(),
{
    let all = zeros + digits;
    assert forall|i: int| 0 <= i < all.len() implies text::is_digit(#[trigger] all[i]) by {
        if i < zeros.len() {
            assert(zeros[i] == '0');
        } else {
            assert(text::is_digit(digits[i - zeros.len()]));
        }
    }
    assert(all.drop_last() =~= zeros + digits.drop_last());
    assert(all.last() == digits.last());
    if digits.len() > 1 {
        let front = digits.drop_last();
        assert forall|i: int| 0 <= i < front.len() implies text::is_digit(#[trigger] front[i]) by {
            assert(text::is_digit(digits[i]));
        }
        lemma_leading_zeros(zeros, front);
    } else {
        lemma_zeros(zeros);
        assert(all.drop_last() =~= zeros);
        assert(digits.drop_last() =~= Seq::empty());
    }
}

proof fn lemma_zeros(zeros: Seq<char>)
    requires
        forall|i: int| 0 <= i < zeros.len() ==> #[trigger] zeros[i] == '0',
    ensures
        text::digits_value(zeros) == 0,
    decreases zeros.len(),
{
    if zeros.len() > 0 {
        lemma_zeros(zeros.drop_last());
        assert(zeros[zeros.len() - 1] == '0');
    }
}

} // verus!
