//! Paths as byte strings, and the working path that belongs to a target path.
//!
//! A path is a sequence of components separated by `/`. Repeated separators,
//! trailing separators and components `.` (other than a leading one) carry no
//! meaning. The file name of a path is its last component, unless that is
//! `..`; the extension is what follows the last `.` of the file name, unless
//! that `.` is the first byte of the name.

use vstd::prelude::*;
use crate::decimal::{digits, is_digit, lemma_digits_injective, lemma_digits_shape, push_decimal};

verus! {

/// The byte that separates the components of a path: `/`.
pub const SEPARATOR: u8 = 0x2f;

/// The byte that introduces an extension: `.`.
pub const DOT: u8 = 0x2e;

/// The byte that separates the parts of a working extension: `-`.
pub const DASH: u8 = 0x2d;

/// Where the components of `path` begin: behind a leading separator (the
/// root), or behind a leading `.` that names the current directory.
pub open spec fn body_start(path: Seq<u8>) -> int {
    if path.len() >= 1 && path[0] == SEPARATOR {
        1
    } else if path.len() >= 1 && path[0] == DOT && (path.len() == 1 || path[1] == SEPARATOR) {
        1
    } else {
        0
    }
}

/// Whether the byte before `end` is a whole component `.`.
pub open spec fn ends_in_cur_dir(path: Seq<u8>, start: int, end: int) -> bool {
    &&& end > start
    &&& path[end - 1] == DOT
    &&& (end - 1 == start || path[end - 2] == SEPARATOR)
}

/// The end of the last component of `path[start..end]` that is not `.`, or
/// `start` where there is none.
pub open spec fn name_end(path: Seq<u8>, start: int, end: int) -> int
    decreases end - start,
{
    if end <= start {
        start
    } else if path[end - 1] == SEPARATOR || ends_in_cur_dir(path, start, end) {
        name_end(path, start, end - 1)
    } else {
        end
    }
}

/// The start of the component of `path[start..]` that ends at `end`.
pub open spec fn name_start(path: Seq<u8>, start: int, end: int) -> int
    decreases end - start,
{
    if end <= start {
        start
    } else if path[end - 1] == SEPARATOR {
        end
    } else {
        name_start(path, start, end - 1)
    }
}

/// The bounds of the file name of `path`: of its last component, where that
/// is neither missing nor `..`.
pub open spec fn file_name_range(path: Seq<u8>) -> Option<(int, int)> {
    let start = body_start(path);
    let end = name_end(path, start, path.len() as int);
    let begin = name_start(path, start, end);
    if begin == end || path.subrange(begin, end) == seq![DOT, DOT] {
        None
    } else {
        Some((begin, end))
    }
}

/// The file name of `path`.
pub open spec fn file_name(path: Seq<u8>) -> Option<Seq<u8>> {
    match file_name_range(path) {
        Some((begin, end)) => Some(path.subrange(begin, end)),
        None => None,
    }
}

/// The index of the last `.` among the first `end` bytes of `name`, or -1.
pub open spec fn last_dot(name: Seq<u8>, end: int) -> int
    decreases end,
{
    if end <= 0 {
        -1
    } else if name[end - 1] == DOT {
        end - 1
    } else {
        last_dot(name, end - 1)
    }
}

/// The length of the stem of the file name `name`: of what stands before its
/// last `.`, or of all of it where the name has no `.` behind its first byte.
pub open spec fn stem_len(name: Seq<u8>) -> int {
    let dot = last_dot(name, name.len() as int);
    if dot <= 0 {
        name.len() as int
    } else {
        dot
    }
}

/// The extension of `path`: what follows the last `.` of its file name.
pub open spec fn extension(path: Seq<u8>) -> Option<Seq<u8>> {
    match file_name(path) {
        Some(name) => {
            let dot = last_dot(name, name.len() as int);
            if dot <= 0 {
                None
            } else {
                Some(name.subrange(dot + 1, name.len() as int))
            }
        },
        None => None,
    }
}

/// `path` with the extension of its file name replaced by `extension`, or
/// removed where `extension` is empty. A path without a file name stays as
/// it is.
pub open spec fn with_extension(path: Seq<u8>, extension: Seq<u8>) -> Seq<u8> {
    match file_name_range(path) {
        Some((begin, end)) => {
            let base = path.subrange(0, begin + stem_len(path.subrange(begin, end)));
            if extension.len() == 0 {
                base
            } else {
                base.push(DOT) + extension
            }
        },
        None => path,
    }
}

/// The marker that every working extension carries: the ASCII bytes of
/// `phazer-working`.
pub open spec fn marker() -> Seq<u8> {
    seq![
        0x70, 0x68, 0x61, 0x7a, 0x65, 0x72, 0x2d, 0x77, 0x6f, 0x72, 0x6b, 0x69, 0x6e, 0x67,
    ]
}

/// `phazer-working-{process_id}-{serial}`.
pub open spec fn working_suffix(process_id: u32, serial: usize) -> Seq<u8> {
    marker().push(DASH) + digits(process_id as nat).push(DASH) + digits(serial as nat)
}

/// The extension of a working path: `{extension}.phazer-working-{process_id}-{serial}`
/// for a target with an extension, the same without the leading
/// `{extension}.` for one without.
pub open spec fn working_extension(extension: Option<Seq<u8>>, process_id: u32, serial: usize) -> Seq<
    u8,
> {
    match extension {
        Some(extension) => extension.push(DOT) + working_suffix(process_id, serial),
        None => working_suffix(process_id, serial),
    }
}

/// What the working path of `target` begins with: the target up to the end
/// of its file name, or all of a target that has no file name.
pub open spec fn working_lead(target: Seq<u8>) -> Seq<u8> {
    match file_name_range(target) {
        Some((begin, end)) => target.subrange(0, end),
        None => target,
    }
}

/// The working path of `target`: `target` with its extension replaced by the
/// working extension. A target without a file name has no extension to
/// replace; its working path is the target, a `.` and the working suffix.
pub open spec fn working_path(target: Seq<u8>, process_id: u32, serial: usize) -> Seq<u8> {
    match file_name_range(target) {
        Some(_) => with_extension(
            target,
            working_extension(extension(target), process_id, serial),
        ),
        None => target.push(DOT) + working_suffix(process_id, serial),
    }
}

/// Where the last component ends, and what stands behind it: nothing but
/// separators and components `.`, the first of them a separator.
pub proof fn lemma_name_end(path: Seq<u8>, start: int, end: int)
    requires
        0 <= start <= end <= path.len(),
    ensures
        start <= name_end(path, start, end) <= end,
        name_end(path, start, end) > start ==> path[name_end(path, start, end) - 1] != SEPARATOR,
        start < name_end(path, start, end) < end ==> path[name_end(path, start, end)] == SEPARATOR,
    decreases end - start,
{
    if end > start && (path[end - 1] == SEPARATOR || ends_in_cur_dir(path, start, end)) {
        lemma_name_end(path, start, end - 1);
    }
}

/// A component holds no separator and starts right behind one, or at the
/// start of the body.
pub proof fn lemma_name_start(path: Seq<u8>, start: int, end: int)
    requires
        0 <= start <= end <= path.len(),
    ensures
        start <= name_start(path, start, end) <= end,
        end > start && path[end - 1] != SEPARATOR ==> name_start(path, start, end) < end,
        forall|i: int| name_start(path, start, end) <= i < end ==> path[i] != SEPARATOR,
        name_start(path, start, end) == start || path[name_start(path, start, end) - 1]
            == SEPARATOR,
    decreases end - start,
{
    if end > start && path[end - 1] != SEPARATOR {
        lemma_name_start(path, start, end - 1);
    }
}

/// The file name of a path lies inside it, is not empty and holds no
/// separator; behind it the path goes on, if at all, with a separator.
pub proof fn lemma_file_name_range(path: Seq<u8>)
    requires
        file_name_range(path) is Some,
    ensures
        ({
            let (begin, end) = file_name_range(path)->0;
            &&& 0 <= begin < end <= path.len()
            &&& forall|i: int| begin <= i < end ==> path[i] != SEPARATOR
            &&& end < path.len() ==> path[end] == SEPARATOR
        }),
{
    let start = body_start(path);
    lemma_name_end(path, start, path.len() as int);
    lemma_name_start(path, start, name_end(path, start, path.len() as int));
}

/// Where the last `.` of a name is.
pub proof fn lemma_last_dot(name: Seq<u8>, end: int)
    requires
        0 <= end <= name.len(),
    ensures
        -1 <= last_dot(name, end) < end,
        last_dot(name, end) >= 0 ==> name[last_dot(name, end)] == DOT,
        forall|i: int| last_dot(name, end) < i < end ==> name[i] != DOT,
    decreases end,
{
    if end > 0 && name[end - 1] != DOT {
        lemma_last_dot(name, end - 1);
    }
}

/// A working suffix tells which process and which engine it was made for.
pub proof fn lemma_working_suffix_injective(
    process_a: u32,
    serial_a: usize,
    process_b: u32,
    serial_b: usize,
)
    requires
        working_suffix(process_a, serial_a) == working_suffix(process_b, serial_b),
    ensures
        process_a == process_b,
        serial_a == serial_b,
{
    let head = marker().push(DASH);
    let h = head.len() as int;
    let pa = digits(process_a as nat);
    let pb = digits(process_b as nat);
    let sa = digits(serial_a as nat);
    let sb = digits(serial_b as nat);
    let a = working_suffix(process_a, serial_a);
    let b = working_suffix(process_b, serial_b);
    lemma_digits_shape(process_a as nat);
    lemma_digits_shape(process_b as nat);
    lemma_digits_shape(serial_a as nat);
    lemma_digits_shape(serial_b as nat);
    assert(a == head + pa.push(DASH) + sa);
    assert(b == head + pb.push(DASH) + sb);
    assert(!is_digit(DASH));
    if pa.len() < pb.len() {
        assert(a[h + pa.len()] == DASH);
        assert(b[h + pa.len()] == pb[pa.len() as int]);
        assert(false);
    }
    if pb.len() < pa.len() {
        assert(b[h + pb.len()] == DASH);
        assert(a[h + pb.len()] == pa[pb.len() as int]);
        assert(false);
    }
    assert(pa =~= pb) by {
        assert forall|i: int| 0 <= i < pa.len() implies pa[i] == pb[i] by {
            assert(a[h + i] == pa[i]);
            assert(b[h + i] == pb[i]);
        }
    }
    assert(sa =~= sb) by {
        assert(a.len() == b.len());
        assert forall|i: int| 0 <= i < sa.len() implies sa[i] == sb[i] by {
            assert(a[h + pa.len() + 1 + i] == sa[i]);
            assert(b[h + pb.len() + 1 + i] == sb[i]);
        }
    }
    lemma_digits_injective(process_a as nat, process_b as nat);
    lemma_digits_injective(serial_a as nat, serial_b as nat);
}

/// The working path of a target is what it begins with, a `.` and the
/// working suffix. For a target with a file name that is the target up to
/// the end of the name: whatever extension the target has stays in place,
/// and trailing separators are dropped.
pub proof fn lemma_working_path_form(target: Seq<u8>, process_id: u32, serial: usize)
    ensures
        working_path(target, process_id, serial) == working_lead(target).push(DOT)
            + working_suffix(process_id, serial),
{
    if file_name_range(target) is Some {
        let (begin, end) = file_name_range(target)->0;
        lemma_file_name_range(target);
        let name = target.subrange(begin, end);
        let dot = last_dot(name, name.len() as int);
        lemma_last_dot(name, name.len() as int);
        let suffix = working_suffix(process_id, serial);
        lemma_digits_shape(serial as nat);
        assert(suffix.len() > 0);
        let whole = target.subrange(0, end).push(DOT) + suffix;
        if dot <= 0 {
            assert(working_path(target, process_id, serial) =~= whole);
        } else {
            let old = name.subrange(dot + 1, name.len() as int);
            assert(name[dot] == target[begin + dot]);
            assert(target.subrange(0, begin + dot).push(DOT) + old =~= target.subrange(0, end));
            assert(target.subrange(0, begin + dot).push(DOT) + (old.push(DOT) + suffix) =~= whole);
        }
    }
}

/// The working path of a target is another path than the target, whatever
/// the target is.
pub proof fn lemma_working_path_differs(target: Seq<u8>, process_id: u32, serial: usize)
    ensures
        working_path(target, process_id, serial) != target,
{
    lemma_working_path_form(target, process_id, serial);
    let working = working_path(target, process_id, serial);
    if file_name_range(target) is Some {
        let (begin, end) = file_name_range(target)->0;
        lemma_file_name_range(target);
        if end < target.len() {
            assert(working[end] == DOT);
        } else {
            assert(working.len() > target.len());
        }
    } else {
        assert(working.len() > target.len());
    }
}

/// Two engines for one target, made in different processes or under
/// different serial numbers, have different working paths, whatever the
/// target is.
pub proof fn lemma_working_paths_distinct(
    target: Seq<u8>,
    process_a: u32,
    serial_a: usize,
    process_b: u32,
    serial_b: usize,
)
    requires
        process_a != process_b || serial_a != serial_b,
    ensures
        working_path(target, process_a, serial_a) != working_path(target, process_b, serial_b),
{
    lemma_working_path_form(target, process_a, serial_a);
    lemma_working_path_form(target, process_b, serial_b);
    let lead = working_lead(target).push(DOT);
    let a = working_suffix(process_a, serial_a);
    let b = working_suffix(process_b, serial_b);
    if lead + a == lead + b {
        assert(a =~= b) by {
            assert((lead + a).len() == (lead + b).len());
            assert forall|i: int| 0 <= i < a.len() implies a[i] == b[i] by {
                assert((lead + a)[lead.len() as int + i] == a[i]);
                assert((lead + b)[lead.len() as int + i] == b[i]);
            }
        }
        lemma_working_suffix_injective(process_a, serial_a, process_b, serial_b);
    }
}

/// A stretch without a separator that begins at the start of the body or
/// right behind a separator is one component.
pub proof fn lemma_component(path: Seq<u8>, start: int, begin: int, end: int)
    requires
        0 <= start <= begin <= end <= path.len(),
        begin == start || path[begin - 1] == SEPARATOR,
        forall|i: int| begin <= i < end ==> path[i] != SEPARATOR,
    ensures
        name_start(path, start, end) == begin,
    decreases end - begin,
{
    if end > begin {
        lemma_component(path, start, begin, end - 1);
    }
}

/// A working suffix holds no separator, and ends in a digit.
pub proof fn lemma_working_suffix_shape(process_id: u32, serial: usize)
    ensures
        working_suffix(process_id, serial).len() >= 18,
        forall|i: int|
            0 <= i < working_suffix(process_id, serial).len() ==> #[trigger] working_suffix(
                process_id,
                serial,
            )[i] != SEPARATOR,
        is_digit(working_suffix(process_id, serial).last()),
{
    let head = marker().push(DASH);
    let p = digits(process_id as nat);
    let n = digits(serial as nat);
    let suffix = working_suffix(process_id, serial);
    lemma_digits_shape(process_id as nat);
    lemma_digits_shape(serial as nat);
    assert(suffix == head + p.push(DASH) + n);
    assert forall|i: int| 0 <= i < suffix.len() implies #[trigger] suffix[i] != SEPARATOR by {
        if i < head.len() {
            assert(suffix[i] == head[i]);
        } else if i < head.len() + p.len() {
            assert(suffix[i] == p[i - head.len()]);
        } else if i == head.len() + p.len() {
            assert(suffix[i] == DASH);
        } else {
            assert(suffix[i] == n[i - head.len() - p.len() - 1]);
        }
    }
    assert(suffix.last() == n.last());
}

/// The working path lies beside its target. Where the target has a file
/// name, the file name of the working path begins where that of the target
/// begins, so that both have the same directory before them, and holds the
/// whole file name of the target. Where it has none, the working path
/// begins with the whole target.
pub proof fn lemma_working_path_is_beside(target: Seq<u8>, process_id: u32, serial: usize)
    ensures
        match file_name_range(target) {
            Some((begin, end)) => {
                let working = working_path(target, process_id, serial);
                &&& file_name_range(working) == Some((begin, working.len() as int))
                &&& working.subrange(0, end) == target.subrange(0, end)
            },
            None => working_path(target, process_id, serial).subrange(0, target.len() as int)
                == target,
        },
{
    let working = working_path(target, process_id, serial);
    let suffix = working_suffix(process_id, serial);
    lemma_working_path_form(target, process_id, serial);
    lemma_working_suffix_shape(process_id, serial);
    if file_name_range(target) is Some {
        let (begin, end) = file_name_range(target)->0;
        lemma_file_name_range(target);
        let start = body_start(target);
        let len = working.len() as int;
        lemma_name_end(target, start, target.len() as int);
        lemma_name_start(target, start, end);
        assert(working == target.subrange(0, end).push(DOT) + suffix);
        assert(working.subrange(0, end) =~= target.subrange(0, end));
        assert forall|i: int| 0 <= i < end implies working[i] == target[i] by {}
        assert(working[end] == DOT);
        assert forall|i: int| end < i < len implies working[i] == suffix[i - end - 1] by {}
        assert(body_start(working) == start);
        assert(working[len - 1] == suffix.last());
        assert(name_end(working, start, len) == len);
        assert forall|i: int| begin <= i < len implies working[i] != SEPARATOR by {
            if i > end {
                assert(working[i] == suffix[i - end - 1]);
            }
        }
        lemma_component(working, start, begin, len);
        assert(working.subrange(begin, len).len() > 2);
    } else {
        assert(working.subrange(0, target.len() as int) =~= target);
    }
}

/// Finds the bounds of the file name of `path`.
pub fn find_file_name(path: &Vec<u8>) -> (range: Option<(usize, usize)>)
    ensures
        match range {
            Some((begin, end)) => file_name_range(path@) == Some((begin as int, end as int)),
            None => file_name_range(path@) is None,
        },
        range matches Some((begin, end)) ==> begin < end <= path.len(),
{
    let len = path.len();
    let start: usize = if len >= 1 && path[0] == SEPARATOR {
        1
    } else if len >= 1 && path[0] == DOT && (len == 1 || path[1] == SEPARATOR) {
        1
    } else {
        0
    };
    let mut end: usize = len;
    while end > start && (path[end - 1] == SEPARATOR || (path[end - 1] == DOT && (end - 1 == start
        || path[end - 2] == SEPARATOR)))
        invariant
            start <= end <= len,
            len == path.len(),
            name_end(path@, start as int, len as int) == name_end(path@, start as int, end as int),
        decreases end,
    {
        end -= 1;
    }
    let mut begin: usize = end;
    while begin > start && path[begin - 1] != SEPARATOR
        invariant
            start <= begin <= end <= len,
            len == path.len(),
            name_start(path@, start as int, end as int) == name_start(
                path@,
                start as int,
                begin as int,
            ),
        decreases begin,
    {
        begin -= 1;
    }
    if begin == end {
        None
    } else if end - begin == 2 && path[begin] == DOT && path[begin + 1] == DOT {
        assert(path@.subrange(begin as int, end as int) =~= seq![DOT, DOT]);
        None
    } else {
        assert(path@.subrange(begin as int, end as int) != seq![DOT, DOT]) by {
            let name = path@.subrange(begin as int, end as int);
            if name == seq![DOT, DOT] {
                assert(name.len() == 2);
                assert(name[0] == DOT && name[1] == DOT);
            }
        }
        Some((begin, end))
    }
}

/// Finds the last `.` of `path[begin..end]`, as an index into `path`.
fn find_last_dot(path: &Vec<u8>, begin: usize, end: usize) -> (dot: Option<usize>)
    requires
        begin <= end <= path.len(),
    ensures
        match dot {
            Some(dot) => begin <= dot < end && last_dot(
                path@.subrange(begin as int, end as int),
                end - begin,
            ) == dot - begin,
            None => last_dot(path@.subrange(begin as int, end as int), end - begin) == -1,
        },
{
    let ghost name = path@.subrange(begin as int, end as int);
    let mut at: usize = end;
    while at > begin && path[at - 1] != DOT
        invariant
            begin <= at <= end <= path.len(),
            name == path@.subrange(begin as int, end as int),
            last_dot(name, end - begin) == last_dot(name, at - begin),
        decreases at,
    {
        assert(name[at - 1 - begin] == path@[at - 1]);
        at -= 1;
    }
    if at > begin {
        assert(name[at - 1 - begin] == path@[at - 1]);
        Some(at - 1)
    } else {
        None
    }
}

/// Copies `path[begin..end]`.
fn copy_range(path: &Vec<u8>, begin: usize, end: usize) -> (part: Vec<u8>)
    requires
        begin <= end <= path.len(),
    ensures
        part@ == path@.subrange(begin as int, end as int),
{
    let mut part: Vec<u8> = Vec::new();
    let mut at: usize = begin;
    while at < end
        invariant
            begin <= at <= end <= path.len(),
            part@ == path@.subrange(begin as int, at as int),
        decreases end - at,
    {
        part.push(path[at]);
        at += 1;
        assert(part@ =~= path@.subrange(begin as int, at as int));
    }
    part
}

/// Appends `tail` to `out`.
fn push_all(out: &mut Vec<u8>, tail: &Vec<u8>)
    ensures
        final(out)@ == old(out)@ + tail@,
{
    let mut at: usize = 0;
    while at < tail.len()
        invariant
            at <= tail.len(),
            out@ == old(out)@ + tail@.subrange(0, at as int),
        decreases tail.len() - at,
    {
        out.push(tail[at]);
        at += 1;
        assert(out@ =~= old(out)@ + tail@.subrange(0, at as int));
    }
    assert(tail@.subrange(0, at as int) =~= tail@);
}

/// The extension of `path`, if it has one.
pub fn extension_of(path: &Vec<u8>) -> (found: Option<Vec<u8>>)
    ensures
        match found {
            Some(bytes) => extension(path@) == Some(bytes@),
            None => extension(path@) is None,
        },
{
    match find_file_name(path) {
        Some((begin, end)) => match find_last_dot(path, begin, end) {
            Some(dot) => if dot > begin {
                let bytes = copy_range(path, dot + 1, end);
                assert(bytes@ =~= path@.subrange(begin as int, end as int).subrange(
                    dot - begin + 1,
                    end - begin,
                ));
                Some(bytes)
            } else {
                None
            },
            None => None,
        },
        None => None,
    }
}

/// Replaces the extension of `path` by `extension`, or removes it where
/// `extension` is empty. Says whether `path` has a file name; without one it
/// is left as it was.
pub fn set_extension(path: &mut Vec<u8>, extension: &Vec<u8>) -> (has_name: bool)
    ensures
        final(path)@ == with_extension(old(path)@, extension@),
        has_name == file_name_range(old(path)@) is Some,
{
    match find_file_name(path) {
        Some((begin, end)) => {
            let stem_end = match find_last_dot(path, begin, end) {
                Some(dot) => if dot > begin {
                    dot
                } else {
                    end
                },
                None => end,
            };
            path.truncate(stem_end);
            if extension.len() > 0 {
                path.push(DOT);
                push_all(path, extension);
            }
            true
        },
        None => false,
    }
}

/// Appends the marker `phazer-working` to `out`.
fn push_marker(out: &mut Vec<u8>)
    ensures
        final(out)@ == old(out)@ + marker(),
{
    let bytes: [u8; 14] = [
        0x70, 0x68, 0x61, 0x7a, 0x65, 0x72, 0x2d, 0x77, 0x6f, 0x72, 0x6b, 0x69, 0x6e, 0x67,
    ];
    let mut at: usize = 0;
    while at < 14
        invariant
            at <= 14,
            bytes@ == marker(),
            out@ == old(out)@ + marker().subrange(0, at as int),
        decreases 14 - at,
    {
        out.push(bytes[at]);
        at += 1;
        assert(out@ =~= old(out)@ + marker().subrange(0, at as int));
    }
    assert(marker().subrange(0, 14) =~= marker());
}

/// Builds the working extension that goes with the extension of a target.
pub fn make_working_extension(extension: &Option<Vec<u8>>, process_id: u32, serial: usize) -> (bytes:
    Vec<u8>)
    ensures
        bytes@ == working_extension(
            match extension {
                Some(e) => Some(e@),
                None => None,
            },
            process_id,
            serial,
        ),
{
    let mut bytes: Vec<u8> = Vec::new();
    match extension {
        Some(e) => {
            push_all(&mut bytes, e);
            bytes.push(DOT);
        },
        None => {},
    }
    let ghost lead = bytes@;
    push_marker(&mut bytes);
    bytes.push(DASH);
    push_decimal(&mut bytes, process_id as u64);
    bytes.push(DASH);
    push_decimal(&mut bytes, serial as u64);
    assert(bytes@ =~= lead + working_suffix(process_id, serial));
    assert(extension is None ==> lead + working_suffix(process_id, serial) =~= working_suffix(
        process_id,
        serial,
    ));
    bytes
}

/// Derives the working path of `target` for engine `serial` of process
/// `process_id`.
pub fn make_working_path(target: &Vec<u8>, process_id: u32, serial: usize) -> (path: Vec<u8>)
    ensures
        path@ == working_path(target@, process_id, serial),
{
    let extension = extension_of(target);
    let working_extension = make_working_extension(&extension, process_id, serial);
    let mut path = copy_range(target, 0, target.len());
    assert(path@ =~= target@);
    let has_name = set_extension(&mut path, &working_extension);
    if !has_name {
        path.push(DOT);
        push_all(&mut path, &working_extension);
    }
    path
}

} // verus!
