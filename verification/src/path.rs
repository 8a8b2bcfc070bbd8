//! Canonicalization of hierarchical absolute paths.
//!
//! `normalize` turns an arbitrary input string into the unique canonical
//! form of an absolute path, or rejects it with a precise, stable reason;
//! `PathAbs` is the validated value type that carries a canonical form.

use vstd::prelude::*;

verus! {

use crate::error::HdfsError;
use vstd::string::StrSliceExecFns;
use vstd::string::StringExecFns;
use vstd::utf8::encode_utf8;

/// Maximum byte length of a single path segment.
pub const MAX_NAME_LEN: usize = 255;

/// Maximum byte length of a whole canonical path.
pub const MAX_PATH_LEN: usize = 4096;

/// The length in bytes of the UTF-8 encoding of a character sequence.
pub open spec fn byte_len(s: Seq<char>) -> nat {
    encode_utf8(s).len()
}

/// A character the normalizer rejects anywhere in a path: NUL, any Unicode
/// control character, or the division-sign codepoint, which this normalizer
/// treats as a disallowed symbol.
pub open spec fn forbidden_char(c: char) -> bool {
    ||| (c as u32) < 0x20
    ||| (0x7f <= (c as u32) && (c as u32) <= 0x9f)
    ||| (c as u32) == 0xf7
}

/// True when some character of `s` is rejected by the normalizer.
pub open spec fn has_forbidden_in(s: Seq<char>) -> bool {
    exists|i: int| 0 <= i < s.len() && forbidden_char(#[trigger] s[i])
}

/// True when the input denotes an absolute path: nonempty and starting
/// with `'/'`.
pub open spec fn is_absolute(s: Seq<char>) -> bool {
    s.len() > 0 && s[0] == '/'
}

/// A segment the normalizer skips: empty, or a single dot.
pub open spec fn is_skip(seg: Seq<char>) -> bool {
    seg.len() == 0 || seg == seq!['.']
}

/// A segment that pops the stack: a double dot.
pub open spec fn is_pop(seg: Seq<char>) -> bool {
    seg == seq!['.', '.']
}

/// The segments of `s` split on `'/'`: the empty string splits into one
/// empty segment, and every separator ends one segment and starts the next.
pub open spec fn split_slash(s: Seq<char>) -> Seq<Seq<char>>
    decreases s.len(),
{
    if s.len() == 0 {
        seq![Seq::empty()]
    } else if s.last() == '/' {
        split_slash(s.drop_last()).push(Seq::empty())
    } else {
        let parts = split_slash(s.drop_last());
        parts.update(parts.len() - 1, parts.last().push(s.last()))
    }
}

/// One step of segment processing: skip an empty or single-dot segment,
/// pop on a double dot (a no-op on an empty stack), push anything else.
pub open spec fn stack_step(st: Seq<Seq<char>>, seg: Seq<char>) -> Seq<Seq<char>> {
    if is_skip(seg) {
        st
    } else if is_pop(seg) {
        if st.len() == 0 {
            st
        } else {
            st.drop_last()
        }
    } else {
        st.push(seg)
    }
}

/// The stack left after processing a sequence of segments left to right.
pub open spec fn norm_stack(parts: Seq<Seq<char>>) -> Seq<Seq<char>>
    decreases parts.len(),
{
    if parts.len() == 0 {
        Seq::empty()
    } else {
        stack_step(norm_stack(parts.drop_last()), parts.last())
    }
}

/// The characters of a nonempty stack joined with a `'/'` before each
/// segment.
pub open spec fn join_slash(st: Seq<Seq<char>>) -> Seq<char>
    decreases st.len(),
{
    if st.len() == 0 {
        Seq::empty()
    } else {
        join_slash(st.drop_last()) + seq!['/'] + st.last()
    }
}

/// The canonical string assembled from a stack: `/` alone when the stack is
/// empty, otherwise the segments each preceded by a `'/'`.
pub open spec fn assemble(st: Seq<Seq<char>>) -> Seq<char> {
    if st.len() == 0 {
        seq!['/']
    } else {
        join_slash(st)
    }
}

/// True when some segment of `s` would be pushed but exceeds the segment
/// byte limit.
pub open spec fn has_long_segment(s: Seq<char>) -> bool {
    exists|i: int|
        0 <= i < split_slash(s).len() && !is_skip(#[trigger] split_slash(s)[i]) && !is_pop(
            split_slash(s)[i],
        ) && byte_len(split_slash(s)[i]) > MAX_NAME_LEN
}

/// The canonical form of `s`: its segments processed through the stack and
/// reassembled as an absolute path.
pub open spec fn normal_form(s: Seq<char>) -> Seq<char> {
    assemble(norm_stack(split_slash(s)))
}

/// True exactly when the normalizer accepts `s`.
pub open spec fn norm_ok(s: Seq<char>) -> bool {
    &&& is_absolute(s)
    &&& !has_forbidden_in(s)
    &&& !has_long_segment(s)
    &&& byte_len(normal_form(s)) <= MAX_PATH_LEN
}

/// True when `r` is the rejection of `input` with exactly this reason,
/// carrying the original, unmodified input.
pub open spec fn rejected_with(
    r: Result<String, HdfsError>,
    input: Seq<char>,
    reason: Seq<char>,
) -> bool {
    match r {
        Result::Ok(_) => false,
        Result::Err(e) => match e {
            HdfsError::InvalidPath { path, reason: why } => path@ == input && why@ == reason,
            _ => false,
        },
    }
}

/// Splitting any string gives at least one segment.
proof fn lemma_split_len(s: Seq<char>)
    ensures
        split_slash(s).len() >= 1,
    decreases s.len(),
{
    if s.len() > 0 {
        lemma_split_len(s.drop_last());
    }
}

/// Every character of every segment of `s` is a non-separator character
/// of `s` itself.
proof fn lemma_split_chars(s: Seq<char>)
    ensures
        forall|i: int, k: int|
            0 <= i < split_slash(s).len() && 0 <= k < split_slash(s)[i].len() ==> (
            #[trigger] split_slash(s)[i][k]) != '/' && s.contains(split_slash(s)[i][k]),
    decreases s.len(),
{
    if s.len() == 0 {
    } else {
        lemma_split_chars(s.drop_last());
        lemma_split_len(s.drop_last());
        let prev = split_slash(s.drop_last());
        assert forall|i: int, k: int|
            0 <= i < split_slash(s).len() && 0 <= k < split_slash(s)[i].len() implies (
        #[trigger] split_slash(s)[i][k]) != '/' && s.contains(split_slash(s)[i][k]) by {
            let c = split_slash(s)[i][k];
            if s.last() == '/' {
                if i < prev.len() {
                    assert(c == prev[i][k]);
                    assert(s.drop_last().contains(c));
                    let m = choose|m: int| 0 <= m < s.drop_last().len() && s.drop_last()[m] == c;
                    assert(s[m] == c);
                }
            } else {
                if i < prev.len() - 1 {
                    assert(c == prev[i][k]);
                    assert(s.drop_last().contains(c));
                    let m = choose|m: int| 0 <= m < s.drop_last().len() && s.drop_last()[m] == c;
                    assert(s[m] == c);
                } else {
                    assert(split_slash(s)[i] == prev.last().push(s.last()));
                    if k < prev.last().len() {
                        assert(c == prev[prev.len() - 1][k]);
                        assert(s.drop_last().contains(c));
                        let m = choose|m: int|
                            0 <= m < s.drop_last().len() && s.drop_last()[m] == c;
                        assert(s[m] == c);
                    } else {
                        assert(c == s.last());
                        assert(s[s.len() - 1] == c);
                    }
                }
            }
        }
    }
}

/// Every entry of the processed stack is one of the input segments, and is
/// neither skipped nor a pop.
proof fn lemma_norm_stack_elems(parts: Seq<Seq<char>>)
    ensures
        forall|i: int|
            0 <= i < norm_stack(parts).len() ==> parts.contains(#[trigger] norm_stack(parts)[i])
                && !is_skip(norm_stack(parts)[i]) && !is_pop(norm_stack(parts)[i]),
    decreases parts.len(),
{
    if parts.len() == 0 {
    } else {
        lemma_norm_stack_elems(parts.drop_last());
        let prev = norm_stack(parts.drop_last());
        assert forall|i: int| 0 <= i < norm_stack(parts).len() implies parts.contains(
            #[trigger] norm_stack(parts)[i],
        ) && !is_skip(norm_stack(parts)[i]) && !is_pop(norm_stack(parts)[i]) by {
            let e = norm_stack(parts)[i];
            if i < prev.len() && e == prev[i] {
                assert(parts.drop_last().contains(e));
                let m = choose|m: int|
                    0 <= m < parts.drop_last().len() && parts.drop_last()[m] == e;
                assert(parts[m] == e);
            } else {
                assert(e == parts.last());
                assert(parts[parts.len() - 1] == e);
            }
        }
    }
}

/// A nonempty stack assembles to a string that starts with a separator.
proof fn lemma_join_starts_slash(st: Seq<Seq<char>>)
    requires
        st.len() > 0,
    ensures
        join_slash(st).len() > 0,
        join_slash(st)[0] == '/',
    decreases st.len(),
{
    let a = join_slash(st.drop_last());
    if st.drop_last().len() > 0 {
        lemma_join_starts_slash(st.drop_last());
        assert(join_slash(st)[0] == a[0]);
    } else {
        assert(a.len() == 0);
        assert(join_slash(st)[0] == (a + seq!['/'] + st.last())[0]);
        assert((a + seq!['/'])[0] == seq!['/'][0]);
    }
}

/// Assembling segments free of forbidden characters gives a string free of
/// forbidden characters.
proof fn lemma_join_no_forbidden(st: Seq<Seq<char>>)
    requires
        forall|i: int, k: int|
            0 <= i < st.len() && 0 <= k < st[i].len() ==> !forbidden_char(#[trigger] st[i][k]),
    ensures
        !has_forbidden_in(join_slash(st)),
    decreases st.len(),
{
    if st.len() == 0 {
    } else {
        lemma_join_no_forbidden(st.drop_last());
        let a = join_slash(st.drop_last());
        let seg = st.last();
        assert forall|k: int| 0 <= k < join_slash(st).len() implies !forbidden_char(
            #[trigger] join_slash(st)[k],
        ) by {
            let c = join_slash(st)[k];
            if k < a.len() {
                assert(a[k] == c);
            } else if k == a.len() {
                assert(c == '/');
                assert(!forbidden_char('/'));
            } else {
                assert(c == st[st.len() - 1][k - a.len() - 1]);
            }
        }
    }
}

/// Appending separator-free characters to a string extends its final
/// segment and leaves the earlier segments alone.
proof fn lemma_split_append_no_slash(x: Seq<char>, seg: Seq<char>)
    requires
        forall|k: int| 0 <= k < seg.len() ==> (#[trigger] seg[k]) != '/',
    ensures
        split_slash(x + seg) =~~= split_slash(x).update(
            split_slash(x).len() - 1,
            split_slash(x).last() + seg,
        ),
    decreases seg.len(),
{
    lemma_split_len(x);
    let sx = split_slash(x);
    if seg.len() == 0 {
        assert(x + seg =~= x);
        assert(sx.last() + seg =~= sx.last());
        assert(sx.update(sx.len() - 1, sx.last() + seg) =~~= sx);
    } else {
        let head = seg.drop_last();
        let c = seg.last();
        lemma_split_append_no_slash(x, head);
        let p = split_slash(x + head);
        assert((x + seg).drop_last() =~= x + head);
        assert((x + seg).len() > 0 && (x + seg).last() == c);
        assert(c != '/');
        assert(split_slash(x + seg) == p.update(p.len() - 1, p.last().push(c)));
        assert(p.len() == sx.len());
        assert(p.last() == sx.last() + head);
        assert((sx.last() + head).push(c) =~= sx.last() + seg);
        assert(p.update(p.len() - 1, p.last().push(c)) =~~= sx.update(
            sx.len() - 1,
            sx.last() + seg,
        ));
    }
}

/// Splitting the assembly of a nonempty stack of separator-free segments
/// recovers an initial empty segment followed by the stack itself.
proof fn lemma_split_join(st: Seq<Seq<char>>)
    requires
        st.len() > 0,
        forall|i: int, k: int|
            0 <= i < st.len() && 0 <= k < st[i].len() ==> (#[trigger] st[i][k]) != '/',
    ensures
        split_slash(join_slash(st)) =~~= seq![Seq::<char>::empty()] + st,
    decreases st.len(),
{
    let d = st.drop_last();
    let seg = st.last();
    assert(forall|k: int| 0 <= k < seg.len() ==> (#[trigger] seg[k]) != '/') by {
        assert(forall|k: int|
            0 <= k < seg.len() ==> seg[k] == st[st.len() - 1][k] && (#[trigger] seg[k]) == st[
            st.len() - 1][k]);
    }
    if d.len() == 0 {
        let slash = seq!['/'];
        assert(slash.len() == 1 && slash.last() == '/');
        assert(slash.drop_last() =~= Seq::<char>::empty());
        assert(split_slash(slash.drop_last()) =~~= seq![Seq::<char>::empty()]);
        assert(split_slash(slash) =~~= seq![Seq::<char>::empty(), Seq::<char>::empty()]);
        assert(join_slash(d) =~= Seq::<char>::empty());
        assert(join_slash(st) =~= slash + seg);
        lemma_split_append_no_slash(slash, seg);
        assert(split_slash(slash).last() + seg =~= seg);
        assert(st =~~= seq![seg]);
        assert(split_slash(join_slash(st)) =~~= seq![Seq::<char>::empty()] + st);
    } else {
        lemma_split_join(d);
        let jd = join_slash(d);
        let jds = jd.push('/');
        assert(jds.drop_last() =~= jd);
        assert(split_slash(jds) == split_slash(jd).push(Seq::<char>::empty()));
        assert(join_slash(st) =~= jds + seg);
        lemma_split_append_no_slash(jds, seg);
        let p = split_slash(jds);
        assert(p.last() == Seq::<char>::empty());
        assert(p.last() + seg =~= seg);
        assert(split_slash(join_slash(st)) =~~= p.update(p.len() - 1, seg));
        assert(p.update(p.len() - 1, seg) =~~= (seq![Seq::<char>::empty()] + d).push(seg));
        assert((seq![Seq::<char>::empty()] + d).push(seg) =~~= seq![Seq::<char>::empty()] + st);
    }
}

/// Processing an initial empty segment followed by segments that are all
/// pushed rebuilds exactly those segments.
proof fn lemma_norm_stack_of_canonical(st: Seq<Seq<char>>)
    requires
        forall|i: int|
            0 <= i < st.len() ==> !is_skip(#[trigger] st[i]) && !is_pop(st[i]),
    ensures
        norm_stack(seq![Seq::<char>::empty()] + st) == st,
    decreases st.len(),
{
    let p = seq![Seq::<char>::empty()] + st;
    if st.len() == 0 {
        assert(p.len() == 1);
        assert(p[0] == Seq::<char>::empty());
        assert(p.drop_last() =~= Seq::<Seq<char>>::empty());
        assert(norm_stack(p.drop_last()) =~~= Seq::<Seq<char>>::empty());
        assert(is_skip(p.last()));
        assert(norm_stack(p) =~= Seq::<Seq<char>>::empty());
        assert(norm_stack(p) =~~= st);
    } else {
        assert(forall|i: int|
            0 <= i < st.drop_last().len() ==> !is_skip(#[trigger] st.drop_last()[i]) && !is_pop(
                st.drop_last()[i],
            ));
        lemma_norm_stack_of_canonical(st.drop_last());
        assert(p.drop_last() =~= seq![Seq::<char>::empty()] + st.drop_last());
        assert(norm_stack(p.drop_last()) == st.drop_last());
        assert(p.len() == 1 + st.len());
        assert(p.last() == st.last());
        assert(!is_skip(st[st.len() - 1]) && !is_pop(st[st.len() - 1]));
        assert(norm_stack(p) == st.drop_last().push(st.last()));
        assert(st.drop_last().push(st.last()) =~~= st);
    }
}

/// After a successful pass over the input, every stack entry is a pushed
/// segment: nonempty, no dot form, within the segment byte limit, and free
/// of separators and forbidden characters.
proof fn lemma_stack_segments_good(s: Seq<char>, st: Seq<Seq<char>>)
    requires
        st == norm_stack(split_slash(s)),
        !has_forbidden_in(s),
        !has_long_segment(s),
    ensures
        forall|i: int|
            0 <= i < st.len() ==> !is_skip(#[trigger] st[i]) && !is_pop(st[i]) && byte_len(st[i])
                <= MAX_NAME_LEN,
        forall|i: int, k: int|
            0 <= i < st.len() && 0 <= k < st[i].len() ==> (#[trigger] st[i][k]) != '/'
                && !forbidden_char(st[i][k]),
{
    let parts = split_slash(s);
    lemma_split_chars(s);
    lemma_norm_stack_elems(parts);
    assert forall|i: int| 0 <= i < st.len() implies !is_skip(#[trigger] st[i]) && !is_pop(st[i])
        && byte_len(st[i]) <= MAX_NAME_LEN by {
        let pi = choose|pi: int| 0 <= pi < parts.len() && parts[pi] == st[i];
        if byte_len(st[i]) > MAX_NAME_LEN {
            assert(!is_skip(parts[pi]) && !is_pop(parts[pi]) && byte_len(parts[pi])
                > MAX_NAME_LEN);
            assert(has_long_segment(s));
        }
    }
    assert forall|i: int, k: int| 0 <= i < st.len() && 0 <= k < st[i].len() implies (
    #[trigger] st[i][k]) != '/' && !forbidden_char(st[i][k]) by {
        let pi = choose|pi: int| 0 <= pi < parts.len() && parts[pi] == st[i];
        assert(parts[pi][k] != '/' && s.contains(parts[pi][k]));
        if forbidden_char(st[i][k]) {
            let m = choose|m: int| 0 <= m < s.len() && s[m] == st[i][k];
            assert(forbidden_char(s[m]));
        }
    }
}

/// Idempotence of normalization: a canonical form normalizes to itself.
///
/// For every input the normalizer accepts, its canonical form is itself
/// accepted, and normalizing it again gives back the same string.
pub proof fn lemma_normalize_idempotent(s: Seq<char>)
    requires
        norm_ok(s),
    ensures
        norm_ok(normal_form(s)),
        normal_form(normal_form(s)) == normal_form(s),
{
    let parts = split_slash(s);
    let st = norm_stack(parts);
    let n = normal_form(s);
    lemma_stack_segments_good(s, st);
    if st.len() == 0 {
        let slash = seq!['/'];
        assert(n == slash);
        assert(slash.len() == 1 && slash.last() == '/');
        assert(slash.drop_last() =~= Seq::<char>::empty());
        assert(split_slash(slash.drop_last()) =~~= seq![Seq::<char>::empty()]);
        assert(split_slash(slash) =~~= seq![Seq::<char>::empty(), Seq::<char>::empty()]);
        lemma_norm_stack_of_canonical(Seq::<Seq<char>>::empty());
        assert(seq![Seq::<char>::empty()] + Seq::<Seq<char>>::empty() =~~= seq![
            Seq::<char>::empty(),
        ]);
        assert(norm_stack(seq![Seq::<char>::empty()]) == Seq::<Seq<char>>::empty());
        let two = seq![Seq::<char>::empty(), Seq::<char>::empty()];
        assert(two.drop_last() =~= seq![Seq::<char>::empty()]);
        assert(is_skip(two.last()));
        assert(norm_stack(two) == Seq::<Seq<char>>::empty());
        assert(normal_form(n) == n);
        assert(is_absolute(n));
        assert(!forbidden_char('/'));
        assert(forall|i: int| 0 <= i < n.len() ==> !forbidden_char(#[trigger] n[i]));
        assert(!has_long_segment(n)) by {
            if has_long_segment(n) {
                let bad = choose|i: int|
                    0 <= i < split_slash(n).len() && !is_skip(#[trigger] split_slash(n)[i])
                        && !is_pop(split_slash(n)[i]) && byte_len(split_slash(n)[i])
                        > MAX_NAME_LEN;
                assert(is_skip(split_slash(n)[bad]));
            }
        }
    } else {
        lemma_split_join(st);
        lemma_norm_stack_of_canonical(st);
        assert(n == join_slash(st));
        assert(split_slash(n) == seq![Seq::<char>::empty()] + st);
        assert(norm_stack(split_slash(n)) == st);
        assert(normal_form(n) == n);
        lemma_join_starts_slash(st);
        assert(is_absolute(n));
        lemma_join_no_forbidden(st);
        assert(!has_long_segment(n)) by {
            if has_long_segment(n) {
                let bad = choose|i: int|
                    0 <= i < split_slash(n).len() && !is_skip(#[trigger] split_slash(n)[i])
                        && !is_pop(split_slash(n)[i]) && byte_len(split_slash(n)[i])
                        > MAX_NAME_LEN;
                if bad == 0 {
                    assert(is_skip(split_slash(n)[0]));
                } else {
                    assert(split_slash(n)[bad] == st[bad - 1]);
                }
            }
        }
    }
}

/// The absolute invariant of canonical forms: every accepted input's
/// canonical form starts with a separator, contains no forbidden character,
/// and — unless it is the root — none of its segments after the leading
/// separator is empty, a single dot, or a double dot.
pub proof fn lemma_normal_form_canonical(s: Seq<char>)
    requires
        is_absolute(s),
        !has_forbidden_in(s),
        !has_long_segment(s),
    ensures
        is_absolute(normal_form(s)),
        !has_forbidden_in(normal_form(s)),
        normal_form(s) == seq!['/'] || forall|i: int|
            1 <= i < split_slash(normal_form(s)).len() ==> !is_skip(
                #[trigger] split_slash(normal_form(s))[i],
            ) && !is_pop(split_slash(normal_form(s))[i]),
{
    let st = norm_stack(split_slash(s));
    let n = normal_form(s);
    lemma_stack_segments_good(s, st);
    if st.len() == 0 {
        assert(n == seq!['/']);
        assert(is_absolute(n));
        assert(!forbidden_char('/'));
        assert(forall|i: int| 0 <= i < n.len() ==> !forbidden_char(#[trigger] n[i]));
    } else {
        lemma_split_join(st);
        lemma_join_starts_slash(st);
        lemma_join_no_forbidden(st);
        assert(split_slash(n) == seq![Seq::<char>::empty()] + st);
        assert forall|i: int| 1 <= i < split_slash(n).len() implies !is_skip(
            #[trigger] split_slash(n)[i],
        ) && !is_pop(split_slash(n)[i]) by {
            assert(split_slash(n)[i] == st[i - 1]);
        }
    }
}

/// The characters of `s` after its last separator; the whole of `s` when it
/// has none.
pub open spec fn name_suffix(s: Seq<char>) -> Seq<char>
    decreases s.len(),
{
    if s.len() == 0 {
        Seq::empty()
    } else if s.last() == '/' {
        Seq::empty()
    } else {
        name_suffix(s.drop_last()).push(s.last())
    }
}

/// The final path segment of a canonical path: `/` for the root, otherwise
/// the characters after the last separator.
pub open spec fn name_of(s: Seq<char>) -> Seq<char> {
    if s == seq!['/'] {
        seq!['/']
    } else {
        name_suffix(s)
    }
}

/// The suffix after the last separator is the subrange that starts right
/// after it.
proof fn lemma_name_suffix(s: Seq<char>, cut: int)
    requires
        0 <= cut <= s.len(),
        cut == 0 || s[cut - 1] == '/',
        forall|k: int| cut <= k < s.len() ==> (#[trigger] s[k]) != '/',
    ensures
        name_suffix(s) =~= s.subrange(cut, s.len() as int),
    decreases s.len(),
{
    if s.len() == 0 {
    } else if cut == s.len() {
        if cut > 0 {
            assert(s.last() == '/');
        } else {
            assert(s.len() == 0);
        }
    } else {
        assert(s.last() != '/');
        lemma_name_suffix(s.drop_last(), cut);
        assert(name_suffix(s.drop_last()) =~= s.drop_last().subrange(
            cut,
            s.drop_last().len() as int,
        ));
    }
}

/// True when the character is rejected by the normalizer.
fn has_forbidden(ch: char) -> (r: bool)
    ensures
        r == forbidden_char(ch),
{
    let u = ch as u32;
    u < 0x20 || (0x7f <= u && u <= 0x9f) || u == 0xf7
}

/// True when the segment is skipped: empty or a single dot.
fn is_skip_seg(seg: &str) -> (r: bool)
    ensures
        r == is_skip(seg@),
{
    let n = seg.unicode_len();
    if n == 0 {
        true
    } else if n == 1 && seg.get_char(0) == '.' {
        proof {
            assert(seg@ =~= seq!['.']);
        }
        true
    } else {
        proof {
            assert(seg@ != seq!['.']) by {
                if seg@ == seq!['.'] {
                    assert(seg@.len() == 1 && seg@[0] == '.');
                }
            }
        }
        false
    }
}

/// True when the segment pops the stack: a double dot.
fn is_pop_seg(seg: &str) -> (r: bool)
    ensures
        r == is_pop(seg@),
{
    let n = seg.unicode_len();
    if n == 2 && seg.get_char(0) == '.' && seg.get_char(1) == '.' {
        proof {
            assert(seg@ =~= seq!['.', '.']);
        }
        true
    } else {
        proof {
            assert(seg@ != seq!['.', '.']) by {
                if seg@ == seq!['.', '.'] {
                    assert(seg@.len() == 2 && seg@[0] == '.' && seg@[1] == '.');
                }
            }
        }
        false
    }
}

/// The rejection of `input` for the given reason, carrying the original,
/// unmodified input string.
fn invalid_path_err(input: &str, reason: &'static str) -> (e: HdfsError)
    ensures
        e matches HdfsError::InvalidPath { path, reason: why } && path@ == input@ && why == reason,
{
    HdfsError::InvalidPath { path: input.to_owned(), reason }
}

/// Canonicalizes an arbitrary input string into absolute-path normal form,
/// or rejects it with a precise, stable reason.
///
/// The checks run in a fixed order, which decides the reason reported when
/// several are violated: the input must be absolute, must contain no
/// forbidden character, must have no overlong segment, and the assembled
/// result must fit the path byte limit. Every rejection carries the
/// original input unchanged.
#[verifier::loop_isolation(false)]
pub fn normalize(input: &str) -> (r: Result<String, HdfsError>)
    ensures
        norm_ok(input@) <==> r is Ok,
        r is Ok ==> r->Ok_0@ == normal_form(input@),
        !is_absolute(input@) ==> rejected_with(r, input@, "must be absolut"@),
        is_absolute(input@) && has_forbidden_in(input@) ==> rejected_with(
            r,
            input@,
            "control character not allowed"@,
        ),
        is_absolute(input@) && !has_forbidden_in(input@) && has_long_segment(input@)
            ==> rejected_with(r, input@, "segement too long"@),
        is_absolute(input@) && !has_forbidden_in(input@) && !has_long_segment(input@) && byte_len(
            normal_form(input@),
        ) > MAX_PATH_LEN ==> rejected_with(r, input@, "path too long"@),
{
    let n = input.unicode_len();
    if n == 0 || input.get_char(0) != '/' {
        return Err(invalid_path_err(input, "must be absolut"));
    }
    let mut i: usize = 0;
    while i < n
        invariant
            n == input@.len(),
            i <= n,
            forall|j: int| 0 <= j < i ==> !forbidden_char(#[trigger] input@[j]),
        decreases n - i,
    {
        if has_forbidden(input.get_char(i)) {
            return Err(invalid_path_err(input, "control character not allowed"));
        }
        i += 1;
    }
    let mut parts: Vec<&str> = Vec::new();
    let mut start: usize = 0;
    let mut i: usize = 0;
    proof {
        assert(input@.take(0) =~= Seq::<char>::empty());
        assert(input@.subrange(0, 0) =~= Seq::<char>::empty());
        assert(split_slash(input@.take(0)) =~~= parts@.map_values(|p: &str| p@).push(
            input@.subrange(0, 0),
        ));
    }
    while i < n
        invariant
            n == input@.len(),
            start <= i <= n,
            split_slash(input@.take(i as int)) == parts@.map_values(|p: &str| p@).push(
                input@.subrange(start as int, i as int),
            ),
        decreases n - i,
    {
        let ghost prev = split_slash(input@.take(i as int));
        let c = input.get_char(i);
        proof {
            assert(input@.take(i + 1 as int).drop_last() =~= input@.take(i as int));
            assert(input@.take(i + 1 as int).last() == c);
        }
        if c == '/' {
            let seg = input.substring_char(start, i);
            parts.push(seg);
            start = i + 1;
            proof {
                assert(split_slash(input@.take(i + 1 as int)) == prev.push(Seq::<char>::empty()));
                assert(parts@.map_values(|p: &str| p@) =~= prev);
                assert(input@.subrange(start as int, i + 1 as int) =~= Seq::<char>::empty());
            }
        } else {
            proof {
                let pv = parts@.map_values(|p: &str| p@);
                assert(prev.len() == pv.len() + 1);
                assert(split_slash(input@.take(i + 1 as int)) == prev.update(
                    prev.len() - 1,
                    prev.last().push(c),
                ));
                assert(input@.subrange(start as int, i as int).push(c) =~= input@.subrange(
                    start as int,
                    i + 1 as int,
                ));
                assert(prev.update(prev.len() - 1, prev.last().push(c)) =~~= pv.push(
                    input@.subrange(start as int, i + 1 as int),
                ));
            }
        }
        i += 1;
    }
    let last_seg = input.substring_char(start, n);
    parts.push(last_seg);
    proof {
        assert(input@.take(n as int) =~= input@);
        assert(parts@.map_values(|p: &str| p@) =~= split_slash(input@));
    }
    let ghost allparts = split_slash(input@);
    let mut stack: Vec<&str> = Vec::new();
    let mut j: usize = 0;
    while j < parts.len()
        invariant
            parts@.map_values(|p: &str| p@) == allparts,
            allparts == split_slash(input@),
            j <= parts.len(),
            stack@.map_values(|p: &str| p@) == norm_stack(allparts.take(j as int)),
            forall|k: int|
                0 <= k < j ==> is_skip(#[trigger] allparts[k]) || is_pop(allparts[k]) || byte_len(
                    allparts[k],
                ) <= MAX_NAME_LEN,
        decreases parts.len() - j,
    {
        let seg = parts[j];
        proof {
            assert(allparts.take(j + 1 as int).drop_last() =~= allparts.take(j as int));
            assert(allparts.take(j + 1 as int).last() == seg@);
        }
        if is_skip_seg(seg) {
            // an empty or single-dot segment changes nothing
        } else if is_pop_seg(seg) {
            if stack.len() > 0 {
                stack.pop();
                proof {
                    assert(stack@.map_values(|p: &str| p@) =~= norm_stack(
                        allparts.take(j as int),
                    ).drop_last());
                }
            }
        } else {
            if seg.as_bytes().len() > MAX_NAME_LEN {
                proof {
                    assert(allparts[j as int] == seg@);
                    assert(!is_skip(allparts[j as int]) && !is_pop(allparts[j as int]) && byte_len(
                        allparts[j as int],
                    ) > MAX_NAME_LEN);
                }
                return Err(invalid_path_err(input, "segement too long"));
            }
            stack.push(seg);
            proof {
                assert(allparts[j as int] == seg@);
                assert(stack@.map_values(|p: &str| p@) =~= norm_stack(
                    allparts.take(j as int),
                ).push(seg@));
            }
        }
        proof {
            assert(allparts[j as int] == seg@);
        }
        j += 1;
    }
    proof {
        assert(allparts.take(parts@.len() as int) =~= allparts);
    }
    let ghost st = norm_stack(allparts);
    let mut out: String = String::new();
    if stack.len() == 0 {
        out.append("/");
        proof {
            reveal_strlit("/");
            assert(out@ =~= assemble(st));
        }
    } else {
        let mut k: usize = 0;
        while k < stack.len()
            invariant
                stack@.map_values(|p: &str| p@) == st,
                k <= stack.len(),
                out@ == join_slash(st.take(k as int)),
            decreases stack.len() - k,
        {
            out.append("/");
            out.append(stack[k]);
            proof {
                reveal_strlit("/");
                assert(st.take(k + 1 as int).drop_last() =~= st.take(k as int));
                assert(out@ =~= join_slash(st.take(k + 1 as int)));
            }
            k += 1;
        }
        proof {
            assert(st.take(stack@.len() as int) =~= st);
            assert(out@ == assemble(st));
        }
    }
    if out.as_str().as_bytes().len() > MAX_PATH_LEN {
        return Err(invalid_path_err(input, "path too long"));
    }
    proof {
        assert(!has_long_segment(input@)) by {
            if has_long_segment(input@) {
                let bad = choose|i: int|
                    0 <= i < split_slash(input@).len() && !is_skip(
                        #[trigger] split_slash(input@)[i],
                    ) && !is_pop(split_slash(input@)[i]) && byte_len(split_slash(input@)[i])
                        > MAX_NAME_LEN;
                assert(allparts[bad] == split_slash(input@)[bad]);
            }
        }
    }
    Ok(out)
}

/// True when `r` rejects `input` as a path value with exactly this reason,
/// carrying the original, unmodified input.
pub open spec fn path_rejected_with(
    r: Result<PathAbs, HdfsError>,
    input: Seq<char>,
    reason: Seq<char>,
) -> bool {
    match r {
        Result::Ok(_) => false,
        Result::Err(e) => match e {
            HdfsError::InvalidPath { path, reason: why } => path@ == input && why@ == reason,
            _ => false,
        },
    }
}

/// A validated, canonical absolute path. Values are only ever constructed
/// by successful normalization and are immutable, so the canonical-form
/// invariant holds for the lifetime of every value.
#[derive(Clone, Debug, PartialEq, Eq, PartialOrd, Ord, Hash)]
pub struct PathAbs(String);

impl View for PathAbs {
    type V = Seq<char>;

    closed spec fn view(&self) -> Seq<char> {
        self.0@
    }
}

impl PathAbs {
    /// The canonical-form invariant: the carried string is accepted by the
    /// normalizer and is its own normal form.
    pub open spec fn wf(&self) -> bool {
        norm_ok(self@) && normal_form(self@) == self@
    }

    /// The canonical form as a string slice.
    pub fn as_str(&self) -> (r: &str)
        ensures
            r@ == self@,
    {
        self.0.as_str()
    }

    /// The display form of the path: the canonical string itself.
    pub fn to_display_string(&self) -> (r: String)
        ensures
            r@ == self@,
    {
        self.0.clone()
    }

    /// True exactly when this is the root path.
    pub fn is_root(&self) -> (r: bool)
        ensures
            r == (self@ == seq!['/']),
    {
        let s = self.0.as_str();
        if s.unicode_len() == 1 && s.get_char(0) == '/' {
            proof {
                assert(self@ =~= seq!['/']);
            }
            true
        } else {
            proof {
                assert(self@ != seq!['/']) by {
                    if self@ == seq!['/'] {
                        assert(self@.len() == 1 && self@[0] == '/');
                    }
                }
            }
            false
        }
    }

    /// The final path segment: `/` for the root, otherwise the characters
    /// after the last separator.
    pub fn name(&self) -> (r: &str)
        requires
            self.wf(),
        ensures
            r@ == name_of(self@),
    {
        let s = self.0.as_str();
        let n = s.unicode_len();
        if n == 1 {
            proof {
                reveal_strlit("/");
                assert(self@ =~= seq!['/']);
            }
            return "/";
        }
        proof {
            assert(self@ != seq!['/']) by {
                if self@ == seq!['/'] {
                    assert(self@.len() == 1);
                }
            }
        }
        let mut i: usize = n;
        while i > 0 && s.get_char(i - 1) != '/'
            invariant
                i <= n,
                n == s@.len(),
                forall|k: int| i <= k < n ==> (#[trigger] s@[k]) != '/',
            decreases i,
        {
            i -= 1;
        }
        proof {
            if i == 0 {
                assert(s@[0] == '/');
                assert(false);
            }
            lemma_name_suffix(self@, i as int);
        }
        s.substring_char(i, n)
    }
}

impl<'a> core::convert::TryFrom<&'a str> for PathAbs {
    type Error = HdfsError;

    /// Normalizes the input and wraps the canonical form, or reports the
    /// normalizer's rejection unchanged.
    fn try_from(value: &'a str) -> (r: Result<Self, HdfsError>)
        ensures
            norm_ok(value@) <==> r is Ok,
            r is Ok ==> r->Ok_0@ == normal_form(value@) && r->Ok_0.wf(),
            !is_absolute(value@) ==> path_rejected_with(r, value@, "must be absolut"@),
            is_absolute(value@) && has_forbidden_in(value@) ==> path_rejected_with(
                r,
                value@,
                "control character not allowed"@,
            ),
            is_absolute(value@) && !has_forbidden_in(value@) && has_long_segment(value@)
                ==> path_rejected_with(r, value@, "segement too long"@),
            is_absolute(value@) && !has_forbidden_in(value@) && !has_long_segment(value@)
                && byte_len(normal_form(value@)) > MAX_PATH_LEN ==> path_rejected_with(
                r,
                value@,
                "path too long"@,
            ),
    {
        match normalize(value) {
            Ok(s) => {
                proof {
                    lemma_normalize_idempotent(value@);
                }
                Ok(PathAbs(s))
            },
            Err(e) => Err(e),
        }
    }
}

impl<'a> vstd::std_specs::convert::TryFromSpecImpl<&'a str> for PathAbs {
    open spec fn obeys_try_from_spec() -> bool {
        false
    }

    open spec fn try_from_spec(v: &'a str) -> Result<Self, Self::Error> {
        arbitrary()
    }
}

} // verus!
