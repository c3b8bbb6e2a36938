//! Path model for archive entry names.
//!
//! An entry name is a sequence of bytes; `/` separates its segments.  The
//! functions here split a name into segments and sanitize the result so that
//! joining the surviving segments under a target directory cannot escape
//! that directory: embedded NUL bytes are rejected, absolute names and
//! drive or volume anchors (a leading `/` or `\`, a first component of the
//! form `X:`) are rejected, `.` and empty segments are dropped, and a `..`
//! segment that would climb above the root is rejected.  A backslash or
//! colon anywhere else is an ordinary byte of a POSIX file name and is
//! kept.

use vstd::prelude::*;

verus! {

/// The path separator byte, `/`.
pub const SLASH: u8 = 47;

/// The `.` byte.
pub const DOT: u8 = 46;

/// The NUL byte, never allowed in an entry name.
pub const NUL: u8 = 0;

/// The backslash byte, `\`: an ordinary byte of a POSIX file name, but a
/// separator or anchor on Windows where it leads a path.
pub const BACKSLASH: u8 = 92;

/// The colon byte, `:`: an ordinary byte of a POSIX file name, but a drive
/// or volume anchor on Windows in a leading component of the form `X:`.
pub const COLON: u8 = 58;

/// A segment that names the parent directory.
pub open spec fn is_dotdot(s: Seq<u8>) -> bool {
    s == seq![DOT, DOT]
}

/// A segment that adds no path component: empty (from `//` or a trailing
/// `/`) or the current directory `.`.
pub open spec fn is_skippable(s: Seq<u8>) -> bool {
    s.len() == 0 || s == seq![DOT]
}

pub open spec fn contains_byte(s: Seq<u8>, b: u8) -> bool {
    exists|i: int| 0 <= i < s.len() && s[i] == b
}

/// Splitting `s` on `/` when the bytes of an unfinished segment `cur`
/// precede `s`.
pub open spec fn split_acc(s: Seq<u8>, cur: Seq<u8>) -> Seq<Seq<u8>>
    decreases s.len(),
{
    if s.len() == 0 {
        seq![cur]
    } else if s.first() == SLASH {
        seq![cur] + split_acc(s.drop_first(), seq![])
    } else {
        split_acc(s.drop_first(), cur.push(s.first()))
    }
}

/// The segments of a name: the maximal runs of non-`/` bytes, in order,
/// including empty runs between consecutive separators.
pub open spec fn segments_of(s: Seq<u8>) -> Seq<Seq<u8>> {
    split_acc(s, seq![])
}

/// How a segment moves the logical depth of a path: `..` goes up one level,
/// `.` and empty segments stay, anything else goes down one level.
pub open spec fn seg_weight(s: Seq<u8>) -> int {
    if is_dotdot(s) {
        -1int
    } else if is_skippable(s) {
        0int
    } else {
        1int
    }
}

/// The logical depth reached after walking all segments of `c`.
pub open spec fn depth_of(c: Seq<Seq<u8>>) -> int
    decreases c.len(),
{
    if c.len() == 0 {
        0int
    } else {
        depth_of(c.drop_last()) + seg_weight(c.last())
    }
}

/// A component list never climbs above its root: every prefix stays at
/// depth zero or below the start.
pub open spec fn components_safe(c: Seq<Seq<u8>>) -> bool {
    forall|k: int| 0 <= k <= c.len() ==> depth_of(#[trigger] c.take(k)) >= 0
}

/// Sanitizing the segments `segs` after having kept `acc`, at logical depth
/// `depth`: drop `.` and empty segments, keep everything else, and fail on a
/// `..` that would climb above the root.
pub open spec fn sanitize_acc(segs: Seq<Seq<u8>>, acc: Seq<Seq<u8>>, depth: int) -> Option<
    Seq<Seq<u8>>,
>
    decreases segs.len(),
{
    if segs.len() == 0 {
        Some(acc)
    } else if is_skippable(segs.first()) {
        sanitize_acc(segs.drop_first(), acc, depth)
    } else if is_dotdot(segs.first()) {
        if depth <= 0 {
            None
        } else {
            sanitize_acc(segs.drop_first(), acc.push(segs.first()), depth - 1)
        }
    } else {
        sanitize_acc(segs.drop_first(), acc.push(segs.first()), depth + 1)
    }
}

/// A component that would anchor a joined path rather than name a child:
/// it begins with a backslash, or its second byte is a colon — the drive
/// or volume prefix form `X:`.
pub open spec fn anchored_first(s: Seq<u8>) -> bool {
    (s.len() > 0 && s[0] == BACKSLASH) || (s.len() >= 2 && s[1] == COLON)
}

/// The sanitized component list of a decoded entry name, or `None` when the
/// name must be rejected: an embedded NUL byte, an absolute name (leading
/// `/` or `\`), a first component that is a drive or volume anchor, or a
/// `..` that would escape the root.
pub open spec fn sanitize_name_spec(name: Seq<u8>) -> Option<Seq<Seq<u8>>> {
    if contains_byte(name, NUL) {
        None
    } else if name.len() > 0 && (name[0] == SLASH || name[0] == BACKSLASH) {
        None
    } else {
        match sanitize_acc(segments_of(name), seq![], 0) {
            None => None,
            Some(c) => if c.len() > 0 && anchored_first(c[0]) {
                None
            } else {
                Some(c)
            },
        }
    }
}

/// A segment that sanitization keeps exactly as written: non-empty, not `.`
/// or `..`, and free of separators and NUL bytes.
pub open spec fn plain_segment(s: Seq<u8>) -> bool {
    &&& s.len() > 0
    &&& !is_dotdot(s)
    &&& s != seq![DOT]
    &&& !contains_byte(s, SLASH)
    &&& !contains_byte(s, NUL)
}

/// A segment free of the separator it was split on and of NUL bytes.
pub open spec fn separator_free(s: Seq<u8>) -> bool {
    &&& !contains_byte(s, SLASH)
    &&& !contains_byte(s, NUL)
}

proof fn lemma_drop_first_free(s: Seq<u8>, b: u8)
    requires
        !contains_byte(s, b),
        s.len() > 0,
    ensures
        !contains_byte(s.drop_first(), b),
{
    if contains_byte(s.drop_first(), b) {
        let i = choose|i: int| 0 <= i < s.drop_first().len() && s.drop_first()[i] == b;
        assert(s[i + 1] == b);
    }
}

proof fn lemma_push_free(c: Seq<u8>, x: u8, b: u8)
    requires
        !contains_byte(c, b),
        x != b,
    ensures
        !contains_byte(c.push(x), b),
{
    if contains_byte(c.push(x), b) {
        let i = choose|i: int| 0 <= i < c.push(x).len() && c.push(x)[i] == b;
        if i < c.len() {
            assert(c[i] == b);
        } else {
            assert(c.push(x)[i] == x);
        }
    }
}

/// A byte absent from the name and the unfinished segment is absent from
/// every segment of the split.
proof fn lemma_split_acc_free(s: Seq<u8>, cur: Seq<u8>, b: u8)
    requires
        !contains_byte(s, b),
        !contains_byte(cur, b),
    ensures
        forall|i: int|
            0 <= i < split_acc(s, cur).len() ==> !contains_byte(#[trigger] split_acc(s, cur)[i], b),
    decreases s.len(),
{
    if s.len() == 0 {
        assert forall|i: int| 0 <= i < split_acc(s, cur).len() implies !contains_byte(
            #[trigger] split_acc(s, cur)[i],
            b,
        ) by {
            assert(split_acc(s, cur)[i] == cur);
        }
    } else {
        lemma_drop_first_free(s, b);
        assert(s[0] != b);
        if s.first() == SLASH {
            lemma_split_acc_free(s.drop_first(), seq![], b);
            assert forall|i: int| 0 <= i < split_acc(s, cur).len() implies !contains_byte(
                #[trigger] split_acc(s, cur)[i],
                b,
            ) by {
                if i > 0 {
                    assert(split_acc(s, cur)[i] == split_acc(s.drop_first(), seq![])[i - 1]);
                }
            }
        } else {
            lemma_push_free(cur, s.first(), b);
            lemma_split_acc_free(s.drop_first(), cur.push(s.first()), b);
            assert forall|i: int| 0 <= i < split_acc(s, cur).len() implies !contains_byte(
                #[trigger] split_acc(s, cur)[i],
                b,
            ) by {
                assert(split_acc(s, cur)[i] == split_acc(s.drop_first(), cur.push(s.first()))[i]);
            }
        }
    }
}

/// No segment of a split holds the separator it was split on.
proof fn lemma_split_acc_no_slash(s: Seq<u8>, cur: Seq<u8>)
    requires
        !contains_byte(cur, SLASH),
    ensures
        forall|i: int|
            0 <= i < split_acc(s, cur).len() ==> !contains_byte(
                #[trigger] split_acc(s, cur)[i],
                SLASH,
            ),
    decreases s.len(),
{
    if s.len() == 0 {
        assert forall|i: int| 0 <= i < split_acc(s, cur).len() implies !contains_byte(
            #[trigger] split_acc(s, cur)[i],
            SLASH,
        ) by {
            assert(split_acc(s, cur)[i] == cur);
        }
    } else if s.first() == SLASH {
        lemma_split_acc_no_slash(s.drop_first(), seq![]);
        assert forall|i: int| 0 <= i < split_acc(s, cur).len() implies !contains_byte(
            #[trigger] split_acc(s, cur)[i],
            SLASH,
        ) by {
            if i > 0 {
                assert(split_acc(s, cur)[i] == split_acc(s.drop_first(), seq![])[i - 1]);
            }
        }
    } else {
        lemma_push_free(cur, s.first(), SLASH);
        lemma_split_acc_no_slash(s.drop_first(), cur.push(s.first()));
        assert forall|i: int| 0 <= i < split_acc(s, cur).len() implies !contains_byte(
            #[trigger] split_acc(s, cur)[i],
            SLASH,
        ) by {
            assert(split_acc(s, cur)[i] == split_acc(s.drop_first(), cur.push(s.first()))[i]);
        }
    }
}

/// Sanitization only keeps segments of its input: a property of every
/// input segment holds of every kept segment.
proof fn lemma_sanitize_acc_separator_free(segs: Seq<Seq<u8>>, acc: Seq<Seq<u8>>, depth: int)
    requires
        forall|i: int| 0 <= i < segs.len() ==> separator_free(#[trigger] segs[i]),
        forall|i: int| 0 <= i < acc.len() ==> separator_free(#[trigger] acc[i]),
    ensures
        sanitize_acc(segs, acc, depth) matches Some(r) ==> forall|i: int|
            0 <= i < r.len() ==> separator_free(#[trigger] r[i]),
    decreases segs.len(),
{
    if segs.len() == 0 {
    } else if is_skippable(segs.first()) {
        lemma_sanitize_acc_separator_free(segs.drop_first(), acc, depth);
    } else {
        assert(forall|i: int|
            0 <= i < acc.push(segs.first()).len() ==> separator_free(
                #[trigger] acc.push(segs.first())[i],
            ));
        if is_dotdot(segs.first()) {
            if depth > 0 {
                lemma_sanitize_acc_separator_free(segs.drop_first(), acc.push(segs.first()), depth - 1);
            }
        } else {
            lemma_sanitize_acc_separator_free(segs.drop_first(), acc.push(segs.first()), depth + 1);
        }
    }
}

/// Every component the sanitizer keeps is free of `/` and NUL bytes, so
/// the components stand for exactly the separated parts of the name.
pub proof fn lemma_sanitize_separator_free(name: Seq<u8>)
    ensures
        sanitize_name_spec(name) matches Some(c) ==> forall|i: int|
            0 <= i < c.len() ==> separator_free(#[trigger] c[i]),
{
    if sanitize_name_spec(name) is Some {
        lemma_split_acc_free(name, seq![], NUL);
        lemma_split_acc_no_slash(name, seq![]);
        lemma_sanitize_acc_separator_free(segments_of(name), seq![], 0);
    }
}

/// A byte absent from a name is absent from each of its segments.
pub proof fn lemma_segments_free(name: Seq<u8>, b: u8)
    requires
        !contains_byte(name, b),
    ensures
        forall|i: int|
            0 <= i < segments_of(name).len() ==> !contains_byte(
                #[trigger] segments_of(name)[i],
                b,
            ),
{
    lemma_split_acc_free(name, seq![], b);
}

proof fn lemma_depth_push(c: Seq<Seq<u8>>, s: Seq<u8>)
    ensures
        depth_of(c.push(s)) == depth_of(c) + seg_weight(s),
{
    assert(c.push(s).drop_last() =~= c);
    assert(c.push(s).last() == s);
}

proof fn lemma_safe_push(c: Seq<Seq<u8>>, s: Seq<u8>)
    requires
        components_safe(c),
        depth_of(c) + seg_weight(s) >= 0,
    ensures
        components_safe(c.push(s)),
        depth_of(c.push(s)) == depth_of(c) + seg_weight(s),
{
    lemma_depth_push(c, s);
    assert forall|k: int| 0 <= k <= c.push(s).len() implies depth_of(
        #[trigger] c.push(s).take(k),
    ) >= 0 by {
        if k <= c.len() {
            assert(c.push(s).take(k) =~= c.take(k));
        } else {
            assert(c.push(s).take(k) =~= c.push(s));
            assert(c.take(c.len() as int) =~= c);
        }
    }
}

/// Whatever sanitization returns is safe: no prefix of the kept components
/// climbs above the root.
proof fn lemma_sanitize_acc_safe(segs: Seq<Seq<u8>>, acc: Seq<Seq<u8>>, depth: int)
    requires
        components_safe(acc),
        depth_of(acc) == depth,
    ensures
        sanitize_acc(segs, acc, depth) matches Some(r) ==> components_safe(r),
    decreases segs.len(),
{
    if segs.len() == 0 {
    } else if is_skippable(segs.first()) {
        lemma_sanitize_acc_safe(segs.drop_first(), acc, depth);
    } else if is_dotdot(segs.first()) {
        if depth > 0 {
            lemma_safe_push(acc, segs.first());
            lemma_sanitize_acc_safe(segs.drop_first(), acc.push(segs.first()), depth - 1);
        }
    } else {
        lemma_safe_push(acc, segs.first());
        lemma_sanitize_acc_safe(segs.drop_first(), acc.push(segs.first()), depth + 1);
    }
}

/// A sanitized name is safe to join under a target directory.
pub proof fn lemma_sanitize_safe(name: Seq<u8>)
    ensures
        sanitize_name_spec(name) matches Some(c) ==> components_safe(c),
{
    if sanitize_name_spec(name) is Some {
        assert(components_safe(Seq::<Seq<u8>>::empty())) by {
            assert forall|k: int| 0 <= k <= 0 implies depth_of(
                #[trigger] Seq::<Seq<u8>>::empty().take(k),
            ) >= 0 by {
                assert(Seq::<Seq<u8>>::empty().take(k) =~= Seq::<Seq<u8>>::empty());
            }
        }
        lemma_sanitize_acc_safe(segments_of(name), seq![], 0);
    }
}

proof fn lemma_sanitize_acc_plain(segs: Seq<Seq<u8>>, acc: Seq<Seq<u8>>, depth: int)
    requires
        depth >= 0,
        forall|i: int| 0 <= i < segs.len() ==> plain_segment(#[trigger] segs[i]),
    ensures
        sanitize_acc(segs, acc, depth) == Some(acc + segs),
    decreases segs.len(),
{
    if segs.len() == 0 {
        assert(acc + segs =~= acc);
    } else {
        assert(plain_segment(segs[0]));
        lemma_sanitize_acc_plain(segs.drop_first(), acc.push(segs.first()), depth + 1);
        assert(acc.push(segs.first()) + segs.drop_first() =~= acc + segs);
    }
}

/// A name always splits into at least one segment.
pub proof fn lemma_segments_nonempty(s: Seq<u8>)
    ensures
        segments_of(s).len() >= 1,
{
    lemma_split_acc_nonempty(s, seq![]);
}

proof fn lemma_split_acc_nonempty(s: Seq<u8>, cur: Seq<u8>)
    ensures
        split_acc(s, cur).len() >= 1,
    decreases s.len(),
{
    if s.len() == 0 {
    } else if s.first() == SLASH {
    } else {
        lemma_split_acc_nonempty(s.drop_first(), cur.push(s.first()));
    }
}

/// A name made only of plain segments is kept exactly as written: its
/// sanitized components are its segments, unchanged and in order.
pub proof fn lemma_sanitize_plain(name: Seq<u8>)
    requires
        forall|i: int| 0 <= i < segments_of(name).len() ==> plain_segment(
            #[trigger] segments_of(name)[i],
        ),
        !contains_byte(name, NUL),
        !contains_byte(name, BACKSLASH),
        !contains_byte(name, COLON),
        name.len() > 0 ==> name[0] != SLASH,
    ensures
        sanitize_name_spec(name) == Some(segments_of(name)),
        segments_of(name).len() > 0 ==> !anchored_first(segments_of(name)[0]),
{
    lemma_sanitize_acc_plain(segments_of(name), seq![], 0);
    assert(seq![] + segments_of(name) =~= segments_of(name));
    assert(name.len() > 0 ==> name[0] != BACKSLASH);
    lemma_segments_free(name, BACKSLASH);
    lemma_segments_free(name, COLON);
    if segments_of(name).len() > 0 {
        let s0 = segments_of(name)[0];
        assert(s0.len() > 0 ==> s0[0] != BACKSLASH);
        assert(s0.len() >= 2 ==> s0[1] != COLON);
    }
}

/// Splits an entry name into its segments.
pub fn split_name(name: &Vec<u8>) -> (r: Vec<Vec<u8>>)
    ensures
        r.deep_view() == segments_of(name@),
{
    let mut res: Vec<Vec<u8>> = Vec::new();
    let mut cur: Vec<u8> = Vec::new();
    let mut i: usize = 0;
    proof {
        assert(name@.skip(0) =~= name@);
        assert(res.deep_view() + split_acc(name@, cur@) =~~= split_acc(name@, seq![]));
    }
    while i < name.len()
        invariant
            i <= name.len(),
            segments_of(name@) == res.deep_view() + split_acc(name@.skip(i as int), cur@),
        decreases name.len() - i,
    {
        let ghost pre_res = res.deep_view();
        let ghost pre_cur = cur@;
        let ghost rest = name@.skip(i as int);
        proof {
            assert(rest.first() == name@[i as int]);
            assert(rest.drop_first() =~= name@.skip(i as int + 1));
        }
        if name[i] == SLASH {
            res.push(cur);
            cur = Vec::new();
            proof {
                assert(res.deep_view() =~~= pre_res.push(pre_cur));
                assert(pre_res + (seq![pre_cur] + split_acc(name@.skip(i as int + 1), seq![]))
                    =~~= pre_res.push(pre_cur) + split_acc(name@.skip(i as int + 1), seq![]));
                assert(cur@ =~= Seq::<u8>::empty());
            }
        } else {
            cur.push(name[i]);
            proof {
                assert(cur@ == pre_cur.push(name@[i as int]));
            }
        }
        i = i + 1;
    }
    proof {
        assert(name@.skip(i as int) =~= Seq::<u8>::empty());
    }
    let ghost pre_res = res.deep_view();
    let ghost pre_cur = cur@;
    res.push(cur);
    proof {
        assert(res.deep_view() =~~= pre_res.push(pre_cur));
        assert(pre_res + seq![pre_cur] =~~= pre_res.push(pre_cur));
    }
    res
}

/// Does the segment consist of exactly two `.` bytes?
fn seg_is_dotdot(s: &Vec<u8>) -> (r: bool)
    ensures
        r == is_dotdot(s@),
{
    let r = s.len() == 2 && s[0] == DOT && s[1] == DOT;
    if r {
        assert(s@ =~= seq![DOT, DOT]);
    } else {
        assert(s@ != seq![DOT, DOT]) by {
            if s@ == seq![DOT, DOT] {
                assert(s@.len() == 2 && s@[0] == DOT && s@[1] == DOT);
            }
        }
    }
    r
}

/// Is the segment empty or exactly `.`?
fn seg_is_skippable(s: &Vec<u8>) -> (r: bool)
    ensures
        r == is_skippable(s@),
{
    if s.len() == 0 {
        true
    } else if s.len() == 1 && s[0] == DOT {
        assert(s@ =~= seq![DOT]);
        true
    } else {
        assert(s@ != seq![DOT]) by {
            if s@ == seq![DOT] {
                assert(s@.len() == 1 && s@[0] == DOT);
            }
        }
        false
    }
}

fn find_byte(s: &Vec<u8>, b: u8) -> (r: bool)
    ensures
        r == contains_byte(s@, b),
{
    let mut i: usize = 0;
    while i < s.len()
        invariant
            i <= s.len(),
            forall|j: int| 0 <= j < i ==> s@[j] != b,
        decreases s.len() - i,
    {
        if s[i] == b {
            return true;
        }
        i = i + 1;
    }
    false
}

/// Does the component begin with a backslash, or carry a drive or volume
/// prefix of the form `X:`?
pub(crate) fn seg_is_anchored(s: &Vec<u8>) -> (r: bool)
    ensures
        r == anchored_first(s@),
{
    (s.len() > 0 && s[0] == BACKSLASH) || (s.len() >= 2 && s[1] == COLON)
}

/// Sanitizes a decoded entry name: `None` rejects the name (NUL byte,
/// leading `/` or `\`, a drive or volume anchor as first component, or a
/// `..` that would escape the root); `Some` carries the kept components,
/// with `.` and empty segments dropped.
pub fn sanitize_name(name: &Vec<u8>) -> (r: Option<Vec<Vec<u8>>>)
    ensures
        r is Some <==> sanitize_name_spec(name@) is Some,
        r matches Some(v) ==> Some(v.deep_view()) == sanitize_name_spec(name@),
{
    if find_byte(name, NUL) {
        return None;
    }
    if name.len() > 0 && (name[0] == SLASH || name[0] == BACKSLASH) {
        return None;
    }
    let segs = split_name(name);
    let ghost all = segs.deep_view();
    let mut acc: Vec<Vec<u8>> = Vec::new();
    let mut depth: usize = 0;
    let mut i: usize = 0;
    proof {
        assert(all.skip(0) =~~= all);
        assert(acc.deep_view() =~~= Seq::<Seq<u8>>::empty());
        assert(sanitize_acc(all, seq![], 0) == sanitize_acc(all.skip(0), acc.deep_view(), 0));
    }
    while i < segs.len()
        invariant
            i <= segs.len(),
            depth <= i,
            all == segs.deep_view(),
            all == segments_of(name@),
            !contains_byte(name@, NUL),
            !(name@.len() > 0 && (name@[0] == SLASH || name@[0] == BACKSLASH)),
            sanitize_acc(all, seq![], 0) == sanitize_acc(
                all.skip(i as int),
                acc.deep_view(),
                depth as int,
            ),
        decreases segs.len() - i,
    {
        let ghost rest = all.skip(i as int);
        proof {
            assert(rest.first() == all[i as int] && all[i as int] == segs@[i as int].deep_view());
            assert(segs@[i as int].deep_view() =~= segs@[i as int]@);
            assert(rest.drop_first() =~~= all.skip(i as int + 1));
        }
        let ghost pre_acc = acc.deep_view();
        if seg_is_skippable(&segs[i]) {
            // dropped from the path
        } else if seg_is_dotdot(&segs[i]) {
            if depth == 0 {
                proof {
                    assert(sanitize_acc(rest, pre_acc, 0) is None);
                }
                return None;
            }
            depth = depth - 1;
            let seg = segs[i].clone();
            proof {
                assert(seg@ =~= segs@[i as int]@);
            }
            acc.push(seg);
            proof {
                assert(acc.deep_view() =~~= pre_acc.push(rest.first()));
            }
        } else {
            depth = depth + 1;
            let seg = segs[i].clone();
            proof {
                assert(seg@ =~= segs@[i as int]@);
            }
            acc.push(seg);
            proof {
                assert(acc.deep_view() =~~= pre_acc.push(rest.first()));
            }
        }
        i = i + 1;
    }
    proof {
        assert(all.skip(i as int) =~~= Seq::<Seq<u8>>::empty());
    }
    if acc.len() > 0 && seg_is_anchored(&acc[0]) {
        proof {
            assert(acc.deep_view()[0] =~= acc@[0]@);
        }
        return None;
    }
    Some(acc)
}

/// Checks that a component list never climbs above its root.
pub fn check_components(c: &Vec<Vec<u8>>) -> (r: bool)
    ensures
        r == components_safe(c.deep_view()),
{
    let ghost all = c.deep_view();
    let mut depth: usize = 0;
    let mut i: usize = 0;
    while i < c.len()
        invariant
            i <= c.len(),
            depth <= i,
            all == c.deep_view(),
            depth as int == depth_of(all.take(i as int)),
            forall|k: int| 0 <= k <= i ==> depth_of(#[trigger] all.take(k)) >= 0,
        decreases c.len() - i,
    {
        assert(all.take(i as int + 1).drop_last() =~= all.take(i as int));
        assert(all.take(i as int + 1).last() == all[i as int]);
        assert(all[i as int] == c@[i as int]@);
        if seg_is_dotdot(&c[i]) {
            if depth == 0 {
                assert(depth_of(all.take(i as int + 1)) < 0);
                assert(!components_safe(all));
                return false;
            }
            depth = depth - 1;
        } else if seg_is_skippable(&c[i]) {
            // depth unchanged
        } else {
            depth = depth + 1;
        }
        i = i + 1;
    }
    assert(all.take(i as int) =~= all);
    assert forall|k: int| 0 <= k <= all.len() implies depth_of(#[trigger] all.take(k)) >= 0 by {}
    true
}

/// Compares two byte strings.
pub fn bytes_eq(a: &Vec<u8>, b: &Vec<u8>) -> (r: bool)
    ensures
        r == (a@ == b@),
{
    if a.len() != b.len() {
        assert(a@ != b@) by {
            if a@ == b@ {
                assert(a@.len() == b@.len());
            }
        }
        return false;
    }
    let mut i: usize = 0;
    while i < a.len()
        invariant
            i <= a.len(),
            a.len() == b.len(),
            forall|j: int| 0 <= j < i ==> a@[j] == b@[j],
        decreases a.len() - i,
    {
        if a[i] != b[i] {
            return false;
        }
        i = i + 1;
    }
    assert(a@ =~= b@);
    true
}

} // verus!
