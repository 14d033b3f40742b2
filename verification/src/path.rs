//! Paths with `/` between their segments, as texts. What a path means is
//! whether it is absolute and its segments: repeated and trailing separators
//! and inner `.` segments do not count. On Windows a drive, a share or a device
//! may stand in front, and a backslash separates segments too.
use crate::text;
use vstd::prelude::*;

verus! {

/// The texts between the separators of `s`, empty ones included.
pub open spec fn pieces(s: Seq<char>) -> Seq<Seq<char>>
    decreases s.len(),
{
    if s.len() == 0 {
        seq![Seq::empty()]
    } else {
        let ps = pieces(s.drop_last());
        if s.last() == '/' {
            ps.push(Seq::empty())
        } else {
            ps.drop_last().push(ps.last().push(s.last()))
        }
    }
}

/// Whether the piece at position `k` is a segment: it is not empty, and not a
/// `.` anywhere but at the front.
pub open spec fn counts(k: nat, piece: Seq<char>) -> bool {
    piece.len() > 0 && (k == 0 || piece != seq!['.'])
}

/// The pieces that are segments, where the first piece stands at position
/// `from`.
pub open spec fn kept(ps: Seq<Seq<char>>, from: nat) -> Seq<Seq<char>>
    decreases ps.len(),
{
    if ps.len() == 0 {
        Seq::empty()
    } else {
        let front = kept(ps.drop_last(), from);
        if counts((from + ps.len() - 1) as nat, ps.last()) {
            front.push(ps.last())
        } else {
            front
        }
    }
}

/// The segments of a path.
pub open spec fn segments(s: Seq<char>) -> Seq<Seq<char>> {
    kept(pieces(s), 0)
}

/// Whether a path begins at the root.
pub open spec fn is_absolute(s: Seq<char>) -> bool {
    s.len() > 0 && s[0] == '/'
}

/// `rel` below `base`: a separator goes between them unless `base` is empty or
/// ends in one.
pub open spec fn joined(base: Seq<char>, rel: Seq<char>) -> Seq<char> {
    if base.len() == 0 || base.last() == '/' {
        base + rel
    } else {
        base.push('/') + rel
    }
}

/// Segments with single separators between them.
pub open spec fn slashed(segs: Seq<Seq<char>>) -> Seq<char>
    decreases segs.len(),
{
    if segs.len() == 0 {
        Seq::empty()
    } else if segs.len() == 1 {
        segs[0]
    } else {
        slashed(segs.drop_last()).push('/') + segs.last()
    }
}

/// The shortest text of a path.
pub open spec fn rendered(absolute: bool, segs: Seq<Seq<char>>) -> Seq<char> {
    if absolute {
        seq!['/'] + slashed(segs)
    } else {
        slashed(segs)
    }
}

/// Whether `p` lies in `dir`: the same root, the segments of `dir` first, and
/// no way up after them.
pub open spec fn lies_in(dir: Seq<char>, p: Seq<char>) -> bool {
    &&& is_absolute(p) == is_absolute(dir)
    &&& segments(dir).is_prefix_of(segments(p))
    &&& forall|k: int|
        segments(dir).len() <= k < segments(p).len() ==> #[trigger] segments(p)[k] != seq!['.', '.']
}

proof fn lemma_pieces_nonempty(s: Seq<char>)
    ensures
        pieces(s).len() > 0,
    decreases s.len(),
{
    if s.len() > 0 {
        lemma_pieces_nonempty(s.drop_last());
    }
}

/// The pieces on both sides of a separator are those of the two parts.
proof fn lemma_pieces_split(a: Seq<char>, b: Seq<char>)
    ensures
        pieces(a.push('/') + b) == pieces(a) + pieces(b),
    decreases b.len(),
{
    let s = a.push('/') + b;
    if b.len() == 0 {
        assert(s =~= a.push('/'));
        assert(s.drop_last() =~= a);
        assert(pieces(a) + pieces(b) =~= pieces(a).push(Seq::empty()));
    } else {
        let t = b.drop_last();
        lemma_pieces_split(a, t);
        lemma_pieces_nonempty(t);
        assert(s.drop_last() =~= a.push('/') + t);
        assert(s.last() == b.last());
        if b.last() == '/' {
            assert(pieces(a) + pieces(b) =~= (pieces(a) + pieces(t)).push(Seq::empty()));
        } else {
            let ps = pieces(a) + pieces(t);
            assert(ps.last() == pieces(t).last());
            assert(pieces(a) + pieces(b) =~= ps.drop_last().push(ps.last().push(b.last())));
        }
    }
}

proof fn lemma_kept_split(ps: Seq<Seq<char>>, qs: Seq<Seq<char>>, from: nat)
    ensures
        kept(ps + qs, from) == kept(ps, from) + kept(qs, from + ps.len()),
    decreases qs.len(),
{
    if qs.len() == 0 {
        assert(ps + qs =~= ps);
        assert(kept(ps, from) + kept(qs, from + ps.len()) =~= kept(ps, from));
    } else {
        lemma_kept_split(ps, qs.drop_last(), from);
        assert((ps + qs).drop_last() =~= ps + qs.drop_last());
        assert((ps + qs).last() == qs.last());
        let front = kept(qs.drop_last(), from + ps.len());
        assert(kept(ps, from) + front.push(qs.last()) =~= (kept(ps, from) + front).push(qs.last()));
    }
}

proof fn lemma_kept_shift(qs: Seq<Seq<char>>, from: nat)
    requires
        qs.len() > 0,
        qs[0] != seq!['.'],
    ensures
        kept(qs, from) == kept(qs, 0),
    decreases qs.len(),
{
    if qs.len() == 1 {
        assert(qs.drop_last() =~= Seq::empty());
        assert(kept(qs.drop_last(), from) =~= kept(qs.drop_last(), 0));
    } else {
        lemma_kept_shift(qs.drop_last(), from);
    }
}

proof fn lemma_leading_dot(s: Seq<char>)
    requires
        pieces(s)[0] == seq!['.'],
    ensures
        segments(s).len() > 0,
        segments(s)[0] == seq!['.'],
{
    let ps = pieces(s);
    lemma_pieces_nonempty(s);
    assert(ps =~= seq![ps[0]] + ps.skip(1));
    lemma_kept_split(seq![ps[0]], ps.skip(1), 0);
    assert(seq![ps[0]].drop_last() =~= Seq::empty());
    assert(kept(seq![ps[0]].drop_last(), 0) =~= Seq::empty());
    assert(kept(seq![ps[0]], 0) =~= seq![ps[0]]);
}

proof fn lemma_kept_among(ps: Seq<Seq<char>>, from: nat)
    ensures
        forall|j: int| 0 <= j < kept(ps, from).len() ==> ps.contains(#[trigger] kept(ps, from)[j]),
    decreases ps.len(),
{
    if ps.len() > 0 {
        let front = ps.drop_last();
        lemma_kept_among(front, from);
        assert forall|j: int| 0 <= j < kept(ps, from).len() implies ps.contains(
            #[trigger] kept(ps, from)[j],
        ) by {
            if j < kept(front, from).len() {
                assert(kept(ps, from)[j] == kept(front, from)[j]);
                let k = choose|k: int| 0 <= k < front.len() && front[k] == kept(front, from)[j];
                assert(ps[k] == kept(ps, from)[j]);
            } else {
                assert(ps[ps.len() - 1] == kept(ps, from)[j]);
            }
        }
    }
}

/// Every segment of a path stands between its separators.
pub proof fn lemma_segments_are_pieces(s: Seq<char>)
    ensures
        forall|j: int| 0 <= j < segments(s).len() ==> pieces(s).contains(#[trigger] segments(s)[j]),
{
    lemma_kept_among(pieces(s), 0);
}

/// A relative path that is not empty has a segment.
pub proof fn lemma_relative_has_segment(s: Seq<char>)
    requires
        s.len() > 0,
        !is_absolute(s),
    ensures
        segments(s).len() > 0,
{
    lemma_first_piece(s);
    let ps = pieces(s);
    assert(ps =~= seq![ps[0]] + ps.skip(1));
    lemma_kept_split(seq![ps[0]], ps.skip(1), 0);
    assert(seq![ps[0]].drop_last() =~= Seq::empty());
    assert(kept(seq![ps[0]].drop_last(), 0) =~= Seq::empty());
    assert(kept(seq![ps[0]], 0) =~= seq![ps[0]]);
}

proof fn lemma_first_piece(s: Seq<char>)
    requires
        s.len() > 0,
        s[0] != '/',
    ensures
        pieces(s).len() > 0,
        pieces(s)[0].len() > 0,
    decreases s.len(),
{
    let t = s.drop_last();
    lemma_pieces_nonempty(t);
    if t.len() > 0 {
        lemma_first_piece(t);
    }
}

/// The segments of a joined path are those of its two parts, where the second
/// part has no leading `.`.
pub proof fn lemma_joined_segments(base: Seq<char>, rel: Seq<char>)
    requires
        segments(rel).len() > 0,
        segments(rel)[0] != seq!['.'],
    ensures
        segments(joined(base, rel)) == segments(base) + segments(rel),
        base.len() > 0 ==> is_absolute(joined(base, rel)) == is_absolute(base),
{
    lemma_pieces_nonempty(rel);
    if pieces(rel)[0] == seq!['.'] {
        lemma_leading_dot(rel);
    }
    if base.len() == 0 {
        assert(joined(base, rel) =~= rel);
        assert(pieces(base).drop_last() =~= Seq::empty());
        assert(kept(pieces(base).drop_last(), 0) =~= Seq::empty());
        assert(segments(base) + segments(rel) =~= segments(rel));
    } else if base.last() == '/' {
        let b = base.drop_last();
        assert(base =~= b.push('/'));
        assert(joined(base, rel) =~= b.push('/') + rel);
        lemma_pieces_split(b, rel);
        lemma_kept_split(pieces(b), pieces(rel), 0);
        lemma_kept_shift(pieces(rel), pieces(b).len());
        assert(pieces(base).drop_last() =~= pieces(b));
    } else {
        lemma_pieces_split(base, rel);
        lemma_kept_split(pieces(base), pieces(rel), 0);
        lemma_kept_shift(pieces(rel), pieces(base).len());
    }
}

/// Whether segments could be those of one path: none is empty or holds a
/// separator, and only a relative path has a `.`, at its front.
pub open spec fn plain(absolute: bool, segs: Seq<Seq<char>>) -> bool {
    forall|k: int|
        0 <= k < segs.len() ==> (#[trigger] segs[k]).len() > 0 && !segs[k].contains('/') && (segs[k]
            == seq!['.'] ==> k == 0 && !absolute)
}

proof fn lemma_pieces_have_no_separator(s: Seq<char>)
    ensures
        forall|k: int| 0 <= k < pieces(s).len() ==> !(#[trigger] pieces(s)[k]).contains('/'),
        is_absolute(s) ==> pieces(s)[0].len() == 0,
    decreases s.len(),
{
    if s.len() > 0 {
        let t = s.drop_last();
        lemma_pieces_have_no_separator(t);
        lemma_pieces_nonempty(t);
        let ps = pieces(t);
        assert forall|k: int| 0 <= k < pieces(s).len() implies !(#[trigger] pieces(s)[k]).contains(
            '/',
        ) by {
            if k < ps.len() {
                assert(!ps[k].contains('/'));
            }
        }
        if is_absolute(s) && t.len() > 0 {
            assert(is_absolute(t));
            assert(s.last() != '/' ==> ps.len() > 1) by {
                lemma_absolute_pieces(t);
            }
        }
    }
}

proof fn lemma_absolute_pieces(s: Seq<char>)
    requires
        is_absolute(s),
    ensures
        pieces(s).len() > 1,
    decreases s.len(),
{
    let t = s.drop_last();
    lemma_pieces_nonempty(t);
    if t.len() > 0 {
        lemma_absolute_pieces(t);
    }
}

proof fn lemma_kept_plain(ps: Seq<Seq<char>>, from: nat)
    requires
        forall|k: int| 0 <= k < ps.len() ==> !(#[trigger] ps[k]).contains('/'),
    ensures
        forall|j: int|
            0 <= j < kept(ps, from).len() ==> (#[trigger] kept(ps, from)[j]).len() > 0 && !kept(
                ps,
                from,
            )[j].contains('/') && (kept(ps, from)[j] == seq!['.'] ==> j == 0 && from == 0
                && ps[0] == seq!['.']),
    decreases ps.len(),
{
    if ps.len() > 0 {
        lemma_kept_plain(ps.drop_last(), from);
        let front = kept(ps.drop_last(), from);
        if counts((from + ps.len() - 1) as nat, ps.last()) {
            assert forall|j: int| 0 <= j < kept(ps, from).len() implies (#[trigger] kept(
                ps,
                from,
            )[j]).len() > 0 && !kept(ps, from)[j].contains('/') && (kept(ps, from)[j] == seq!['.']
                ==> j == 0 && from == 0 && ps[0] == seq!['.']) by {
                if j < front.len() {
                    assert(kept(ps, from)[j] == front[j]);
                } else {
                    assert(kept(ps, from)[j] == ps.last());
                    if ps.last() == seq!['.'] {
                        assert(ps.len() == 1);
                        assert(ps.drop_last() =~= Seq::empty());
                    }
                }
            }
        }
    }
}

/// The segments of a path could be those of one path.
pub proof fn lemma_segments_plain(s: Seq<char>)
    ensures
        plain(is_absolute(s), segments(s)),
{
    lemma_pieces_have_no_separator(s);
    lemma_kept_plain(pieces(s), 0);
}

proof fn lemma_single_piece(s: Seq<char>)
    requires
        !s.contains('/'),
    ensures
        pieces(s) == seq![s],
    decreases s.len(),
{
    if s.len() > 0 {
        assert(s[s.len() - 1] != '/');
        assert forall|i: int| 0 <= i < s.drop_last().len() implies s.drop_last()[i] != '/' by {
            assert(s[i] != '/');
        }
        lemma_single_piece(s.drop_last());
        assert(s.drop_last().push(s.last()) =~= s);
        assert(pieces(s) =~= seq![s]);
    } else {
        assert(s =~= Seq::empty());
    }
}

/// A name without separators is a path of one segment.
pub proof fn lemma_name_is_segment(name: Seq<char>)
    requires
        name.len() > 0,
        !name.contains('/'),
    ensures
        segments(name) == seq![name],
        !is_absolute(name),
{
    lemma_single_piece(name);
    assert(name[0] != '/');
    assert(seq![name].drop_last() =~= Seq::empty());
    assert(kept(seq![name].drop_last(), 0) =~= Seq::empty());
    assert(kept(seq![name], 0) =~= seq![name]);
}

proof fn lemma_slashed_pieces(segs: Seq<Seq<char>>)
    requires
        segs.len() > 0,
        forall|k: int| 0 <= k < segs.len() ==> !(#[trigger] segs[k]).contains('/'),
    ensures
        pieces(slashed(segs)) == segs,
    decreases segs.len(),
{
    if segs.len() == 1 {
        assert(!segs[0].contains('/'));
        lemma_single_piece(segs[0]);
        assert(seq![segs[0]] =~= segs);
    } else {
        lemma_slashed_pieces(segs.drop_last());
        lemma_pieces_split(slashed(segs.drop_last()), segs.last());
        lemma_single_piece(segs.last());
        assert(segs.drop_last() + seq![segs.last()] =~= segs);
    }
}

proof fn lemma_kept_all(ps: Seq<Seq<char>>, from: nat)
    requires
        forall|k: int| 0 <= k < ps.len() ==> counts((from + k) as nat, #[trigger] ps[k]),
    ensures
        kept(ps, from) == ps,
    decreases ps.len(),
{
    if ps.len() > 0 {
        assert(counts((from + ps.len() - 1) as nat, ps[ps.len() - 1]));
        lemma_kept_all(ps.drop_last(), from);
        assert(ps.drop_last().push(ps.last()) =~= ps);
    } else {
        assert(kept(ps, from) =~= ps);
    }
}

/// Rendering segments and splitting the text again gives the segments.
pub proof fn lemma_rendered_segments(absolute: bool, segs: Seq<Seq<char>>)
    requires
        plain(absolute, segs),
    ensures
        segments(rendered(absolute, segs)) == segs,
        is_absolute(rendered(absolute, segs)) == absolute,
{
    let t = slashed(segs);
    if segs.len() == 0 {
        assert(kept(seq![Seq::<char>::empty()].drop_last(), 0) =~= Seq::empty());
        assert(segments(t) =~= segs);
        if absolute {
            assert(rendered(absolute, segs) =~= Seq::<char>::empty().push('/') + t);
            lemma_pieces_split(Seq::empty(), t);
            let e = seq![Seq::<char>::empty()];
            lemma_kept_split(e, e, 0);
            assert(kept(e.drop_last(), 1) =~= Seq::empty());
            assert(segments(rendered(absolute, segs)) =~= segs);
        }
    } else {
        lemma_slashed_pieces(segs);
        if absolute {
            assert(rendered(absolute, segs) =~= Seq::<char>::empty().push('/') + t);
            lemma_pieces_split(Seq::empty(), t);
            let e = seq![Seq::<char>::empty()];
            lemma_kept_split(e, segs, 0);
            assert(kept(e.drop_last(), 0) =~= Seq::empty());
            lemma_kept_all(segs, 1);
            assert(kept(e, 0) + segs =~= segs);
        } else {
            lemma_kept_all(segs, 0);
            assert(!is_absolute(t)) by {
                lemma_pieces_have_no_separator(t);
                assert(segs[0].len() > 0);
            }
        }
    }
}

/// Replacing the last segment of a path by another name keeps the rest.
pub proof fn lemma_sibling_segments(p: Seq<char>, name: Seq<char>)
    requires
        segments(p).len() > 0,
        name.len() > 0,
        !name.contains('/'),
        name != seq!['.'],
    ensures
        segments(joined(parent_text(p), name)) == segments(p).drop_last().push(name),
        is_absolute(joined(parent_text(p), name)) == is_absolute(p),
{
    let front = segments(p).drop_last();
    lemma_segments_plain(p);
    assert forall|k: int| 0 <= k < front.len() implies (#[trigger] front[k]).len() > 0
        && !front[k].contains('/') && (front[k] == seq!['.'] ==> k == 0 && !is_absolute(p)) by {
        assert(front[k] == segments(p)[k]);
    }
    lemma_rendered_segments(is_absolute(p), front);
    lemma_name_is_segment(name);
    lemma_joined_segments(parent_text(p), name);
    assert(front + seq![name] =~= front.push(name));
    if parent_text(p).len() == 0 {
        assert(joined(parent_text(p), name) =~= name);
    }
}

proof fn lemma_pieces_extend(s: Seq<char>, t: Seq<char>)
    requires
        !t.contains('/'),
    ensures
        pieces(s + t) == pieces(s).drop_last().push(pieces(s).last() + t),
        pieces(s).len() > 0,
    decreases t.len(),
{
    lemma_pieces_nonempty(s);
    if t.len() == 0 {
        assert(s + t =~= s);
        assert(pieces(s).last() + t =~= pieces(s).last());
        assert(pieces(s).drop_last().push(pieces(s).last()) =~= pieces(s));
    } else {
        let u = t.drop_last();
        assert forall|i: int| 0 <= i < u.len() implies u[i] != '/' by {
            assert(t[i] != '/');
        }
        assert(t[t.len() - 1] != '/');
        lemma_pieces_extend(s, u);
        assert((s + t).drop_last() =~= s + u);
        assert((s + t).last() == t.last());
        let ps = pieces(s + u);
        assert(ps.drop_last() =~= pieces(s).drop_last());
        assert(ps.last().push(t.last()) =~= pieces(s).last() + t);
    }
}

/// A path with a longer text at its end lies where the path lies, as long as
/// the path is more than the directory.
pub proof fn lemma_extended_lies_in(dir: Seq<char>, p: Seq<char>, t: Seq<char>)
    requires
        lies_in(dir, p),
        segments(p).len() > segments(dir).len(),
        t.len() > 2,
        !t.contains('/'),
        p.len() > 0,
    ensures
        lies_in(dir, p + t),
{
    lemma_pieces_extend(p, t);
    let ps = pieces(p);
    let front = ps.drop_last();
    let last = ps.last() + t;
    assert(front.push(last).drop_last() =~= front);
    assert(front.push(last).last() == last);
    assert(last.len() > 2);
    assert(segments(p + t) == kept(front, 0).push(last));
    let q = segments(p + t);
    let d = segments(dir);
    assert forall|k: int| 0 <= k < d.len() implies d[k] == q[k] by {
        assert(d[k] == segments(p)[k]);
    }
    assert(d =~= q.subrange(0, d.len() as int));
    assert forall|k: int| d.len() <= k < q.len() implies #[trigger] q[k] != seq!['.', '.'] by {
        if k < q.len() - 1 {
            assert(q[k] == segments(p)[k]);
        }
    }
}

/// A path with a longer text at its end names something else: another last
/// segment, or one more.
pub proof fn lemma_extended_segments(p: Seq<char>, t: Seq<char>)
    requires
        t.len() > 2,
        !t.contains('/'),
    ensures
        segments(p + t).len() > 0,
        segments(p + t).last().len() >= t.len(),
        segments(p + t).drop_last() == segments(p) || (segments(p).len() > 0 && segments(
            p + t,
        ).drop_last() == segments(p).drop_last() && segments(p + t).last() == segments(p).last()
            + t),
{
    lemma_pieces_extend(p, t);
    let ps = pieces(p);
    let front = ps.drop_last();
    let last = ps.last() + t;
    assert(front.push(last).drop_last() =~= front);
    assert(last.len() > 2);
    assert(counts(front.len(), last));
    assert(segments(p + t) == kept(front, 0).push(last));
    assert(segments(p + t).drop_last() =~= kept(front, 0));
    if counts(front.len(), ps.last()) {
        assert(segments(p) == kept(front, 0).push(ps.last()));
        assert(segments(p).drop_last() =~= kept(front, 0));
    }
}

/// The characters of each text.
pub open spec fn texts(v: Seq<String>) -> Seq<Seq<char>> {
    v.map_values(|t: String| t@)
}

/// Whether a piece at the front (`first`) or further on is a segment.
fn piece_counts(first: bool, piece: &Vec<char>) -> (yes: bool)
    ensures
        forall|k: nat| (k == 0) == first ==> yes == counts(k, piece@),
{
    let dot = piece.len() == 1 && piece[0] == '.';
    assert(dot == (piece@ =~= seq!['.']));
    piece.len() > 0 && (first || !dot)
}

/// Whether a path is absolute, and its segments.
pub fn split(p: &str) -> (r: (bool, Vec<String>))
    ensures
        r.0 == is_absolute(p@),
        texts(r.1@) == segments(p@),
{
    let cs = text::chars_of(p);
    let absolute = cs.len() > 0 && cs[0] == '/';
    let mut segs: Vec<String> = Vec::new();
    let mut piece: Vec<char> = Vec::new();
    let mut first = true;
    let ghost mut done: Seq<Seq<char>> = Seq::empty();
    assert(pieces(p@.take(0)) =~= done.push(piece@));
    for i in 0..cs.len()
        invariant
            cs@ == p@,
            pieces(p@.take(i as int)) == done.push(piece@),
            first == (done.len() == 0),
            texts(segs@) == kept(done, 0),
    {
        let ghost before = p@.take(i as int);
        let ghost after = p@.take(i as int + 1);
        assert(after.drop_last() =~= before);
        assert(pieces(before).last() == piece@);
        assert(pieces(before).drop_last() =~= done);
        if cs[i] == '/' {
            let ghost k = done.len();
            if piece_counts(first, &piece) {
                let seg = text::string_of(piece.as_slice());
                let ghost old_segs = segs@;
                segs.push(seg);
                assert(texts(segs@) =~= texts(old_segs).push(piece@));
            }
            proof {
                assert((k == 0) == first);
                assert(done.push(piece@).drop_last() =~= done);
                done = done.push(piece@);
            }
            piece = Vec::new();
            first = false;
            assert(pieces(after) =~= done.push(piece@));
        } else {
            piece.push(cs[i]);
            assert(pieces(after) =~= done.push(piece@));
        }
    }
    assert(p@.take(p@.len() as int) =~= p@);
    assert(done.push(piece@).drop_last() =~= done);
    assert((done.len() == 0) == first);
    if piece_counts(first, &piece) {
        let seg = text::string_of(piece.as_slice());
        let ghost old_segs = segs@;
        segs.push(seg);
        assert(texts(segs@) =~= texts(old_segs).push(piece@));
    }
    (absolute, segs)
}

/// The texts between the separators of a path, empty ones included.
pub fn piece_texts(p: &str) -> (ps: Vec<String>)
    ensures
        texts(ps@) == pieces(p@),
{
    let cs = text::chars_of(p);
    let mut ps: Vec<String> = Vec::new();
    let mut piece = String::new();
    assert(pieces(p@.take(0)) =~= texts(ps@).push(piece@));
    for i in 0..cs.len()
        invariant
            cs@ == p@,
            pieces(p@.take(i as int)) == texts(ps@).push(piece@),
    {
        let ghost before = p@.take(i as int);
        let ghost after = p@.take(i as int + 1);
        let ghost done = texts(ps@);
        let ghost current = piece@;
        assert(after.drop_last() =~= before);
        assert(pieces(before).last() == current);
        assert(pieces(before).drop_last() =~= done);
        if cs[i] == '/' {
            ps.push(piece);
            piece = String::new();
            assert(texts(ps@) =~= done.push(current));
            assert(pieces(after) =~= texts(ps@).push(piece@));
        } else {
            piece.push(cs[i]);
            assert(pieces(after) =~= texts(ps@).push(piece@));
        }
    }
    assert(p@.take(p@.len() as int) =~= p@);
    let ghost done = texts(ps@);
    let ghost current = piece@;
    ps.push(piece);
    assert(texts(ps@) =~= done.push(current));
    ps
}

/// `rel` below `base`.
pub fn join(base: &str, rel: &str) -> (p: String)
    ensures
        p@ == joined(base@, rel@),
{
    let cs = text::chars_of(base);
    if cs.len() == 0 || cs[cs.len() - 1] == '/' {
        text::concat(base, rel)
    } else {
        let mut p = base.to_owned();
        p.push('/');
        text::concat(p.as_str(), rel)
    }
}

/// The shortest text of the path with the first `n` of the segments.
fn render(absolute: bool, segs: &Vec<String>, n: usize) -> (p: String)
    requires
        n <= segs@.len(),
    ensures
        p@ == rendered(absolute, texts(segs@).take(n as int)),
{
    let mut p = String::new();
    let ghost all = texts(segs@);
    assert(all.take(0) =~= Seq::empty());
    for i in 0..n
        invariant
            n <= segs@.len(),
            all == texts(segs@),
            p@ == slashed(all.take(i as int)),
    {
        assert(all.take(i as int + 1).drop_last() =~= all.take(i as int));
        assert(all.take(i as int + 1).last() == segs@[i as int]@);
        if i > 0 {
            p.push('/');
            p = text::concat(p.as_str(), segs[i].as_str());
        } else {
            p = segs[i].clone();
        }
    }
    if absolute {
        assert(seq!['/'] + p@ =~= rendered(absolute, all.take(n as int)));
        let mut root = String::new();
        root.push('/');
        assert(root@ =~= seq!['/']);
        text::concat(root.as_str(), p.as_str())
    } else {
        p
    }
}

/// The path without its last segment; `.` where it has none.
pub open spec fn parent_text(p: Seq<char>) -> Seq<char> {
    if segments(p).len() == 0 {
        seq!['.']
    } else {
        rendered(is_absolute(p), segments(p).drop_last())
    }
}

/// The path without its last segment; `.` where it has none.
pub fn parent(p: &str) -> (q: String)
    ensures
        q@ == parent_text(p@),
{
    let (absolute, segs) = split(p);
    assert(texts(segs@).len() == segs@.len());
    if segs.len() == 0 {
        let mut q = String::new();
        q.push('.');
        assert(q@ =~= seq!['.']);
        q
    } else {
        assert(texts(segs@).take(segs@.len() - 1) =~= segments(p@).drop_last());
        render(absolute, &segs, segs.len() - 1)
    }
}

/// Whether a segment is a name, and neither `.` nor `..`.
pub open spec fn is_name(seg: Seq<char>) -> bool {
    seg != seq!['.'] && seg != seq!['.', '.']
}

/// The last segment, where it is a name.
pub open spec fn file_name_of(p: Seq<char>) -> Option<Seq<char>> {
    if segments(p).len() > 0 && is_name(segments(p).last()) {
        Some(segments(p).last())
    } else {
        None
    }
}

/// Whether a segment is a name, and neither `.` nor `..`.
pub fn names_something(seg: &str) -> (yes: bool)
    ensures
        yes == is_name(seg@),
{
    let cs = text::chars_of(seg);
    let dot = cs.len() == 1 && cs[0] == '.';
    let dots = cs.len() == 2 && cs[0] == '.' && cs[1] == '.';
    assert(dot == (seg@ =~= seq!['.']));
    assert(dots == (seg@ =~= seq!['.', '.']));
    !dot && !dots
}

/// The last segment, where it is a name.
pub fn file_name(p: &str) -> (name: Option<String>)
    ensures
        match name {
            Some(n) => file_name_of(p@) == Some(n@),
            None => file_name_of(p@) is None,
        },
{
    let (_, segs) = split(p);
    assert(texts(segs@).len() == segs@.len());
    if segs.len() == 0 {
        return None;
    }
    let last = segs[segs.len() - 1].clone();
    if names_something(last.as_str()) {
        Some(last)
    } else {
        None
    }
}

/// How many characters stand before the last `.` of a name; none where it has
/// no `.`.
pub open spec fn before_last_dot(name: Seq<char>) -> nat
    decreases name.len(),
{
    if name.len() == 0 {
        0
    } else if name.last() == '.' {
        (name.len() - 1) as nat
    } else {
        before_last_dot(name.drop_last())
    }
}

/// The last `.` stands within the name.
pub proof fn lemma_before_last_dot(name: Seq<char>)
    ensures
        before_last_dot(name) <= name.len(),
    decreases name.len(),
{
    if name.len() > 0 {
        lemma_before_last_dot(name.drop_last());
    }
}

/// A file name without its extension: what precedes its last `.`, or the whole
/// name where only a leading `.` or none is in it.
pub open spec fn stem_of(name: Seq<char>) -> Seq<char> {
    if before_last_dot(name) == 0 {
        name
    } else {
        name.take(before_last_dot(name) as int)
    }
}

/// The last `.` of a file name and what follows it; nothing where the stem is
/// the whole name.
pub open spec fn suffix_of(name: Seq<char>) -> Seq<char> {
    if before_last_dot(name) == 0 {
        Seq::empty()
    } else {
        name.skip(before_last_dot(name) as int)
    }
}

/// A file name's stem and its suffix.
pub fn split_suffix(name: &str) -> (r: (String, String))
    ensures
        r.0@ == stem_of(name@),
        r.1@ == suffix_of(name@),
{
    let cs = text::chars_of(name);
    let mut n: usize = cs.len();
    assert(cs@.take(n as int) =~= cs@);
    while n > 0 && cs[n - 1] != '.'
        invariant
            n <= cs@.len(),
            before_last_dot(cs@) == before_last_dot(cs@.take(n as int)),
        decreases n,
    {
        assert(cs@.take(n as int).drop_last() =~= cs@.take(n as int - 1));
        n -= 1;
    }
    if n <= 1 {
        (name.to_owned(), String::new())
    } else {
        let at: usize = n - 1;
        assert(cs@.subrange(0, at as int) =~= cs@.take(at as int));
        assert(cs@.subrange(at as int, cs@.len() as int) =~= cs@.skip(at as int));
        (
            text::string_of(vstd::slice::slice_subrange(cs.as_slice(), 0, at)),
            text::string_of(vstd::slice::slice_subrange(cs.as_slice(), at, cs.len())),
        )
    }
}

/// A path with `/` for the backslashes that separate segments on Windows.
pub open spec fn portable(p: Seq<char>, windows: bool) -> Seq<char> {
    if windows {
        text::replaced(p, '\\', '/')
    } else {
        p
    }
}

/// A path with `/` for the backslashes that separate segments on Windows.
pub fn to_portable(p: &str, windows: bool) -> (q: String)
    ensures
        q@ == portable(p@, windows),
{
    if windows {
        text::replace(p, '\\', '/')
    } else {
        p.to_owned()
    }
}

/// Whether `p` is `dir` or lies below it, segment by segment.
pub open spec fn begins_with(p: Seq<char>, dir: Seq<char>) -> bool {
    is_absolute(p) == is_absolute(dir) && segments(dir).is_prefix_of(segments(p))
}

/// Whether `p` is `dir` or lies below it, segment by segment.
pub fn starts_with(p: &str, dir: &str) -> (yes: bool)
    ensures
        yes == begins_with(p@, dir@),
{
    let (p_abs, p_segs) = split(p);
    let (d_abs, d_segs) = split(dir);
    assert(texts(p_segs@).len() == p_segs@.len() && texts(d_segs@).len() == d_segs@.len());
    if p_abs != d_abs || d_segs.len() > p_segs.len() {
        return false;
    }
    for i in 0..d_segs.len()
        invariant
            texts(p_segs@) == segments(p@),
            texts(d_segs@) == segments(dir@),
            d_segs@.len() <= p_segs@.len(),
            forall|k: int| 0 <= k < i ==> #[trigger] segments(dir@)[k] == segments(p@)[k],
    {
        assert(segments(dir@)[i as int] == d_segs@[i as int]@);
        assert(segments(p@)[i as int] == p_segs@[i as int]@);
        if d_segs[i] != p_segs[i] {
            assert(segments(p@).subrange(0, d_segs@.len() as int)[i as int] != segments(
                dir@,
            )[i as int]);
            return false;
        }
    }
    assert(segments(dir@) =~= segments(p@).subrange(0, d_segs@.len() as int));
    true
}

/// Whether a character separates segments on Windows.
pub open spec fn is_separator(c: char) -> bool {
    c == '/' || c == '\\'
}

/// Where the first separator of `s` stands at or after `from`; the end where there
/// is none.
pub open spec fn next_separator(s: Seq<char>, from: nat) -> nat
    decreases s.len() - from,
{
    if from >= s.len() || is_separator(s[from as int]) {
        from
    } else {
        next_separator(s, from + 1)
    }
}

/// Whether a path of Windows is taken literally: it begins with `\\?\`.
pub open spec fn is_verbatim(p: Seq<char>) -> bool {
    p.len() >= 4 && p[0] == '\\' && p[1] == '\\' && p[2] == '?' && p[3] == '\\'
}

/// Whether a drive, a letter and a colon, stands at a place.
pub open spec fn drive_at(p: Seq<char>, at: int) -> bool {
    at + 2 <= p.len() && p[at + 1] == ':' && ('a' <= p[at] <= 'z' || 'A' <= p[at] <= 'Z')
}

/// Where the second of two texts ends that begin at `from`, each up to a
/// separator; where the first one ends if the second one is empty.
pub open spec fn two_texts(p: Seq<char>, from: nat) -> nat {
    let first = next_separator(p, from);
    if first >= p.len() || next_separator(p, first + 1) == first + 1 {
        first
    } else {
        next_separator(p, first + 1)
    }
}

/// How many characters of a path of Windows name a drive, a share or a device:
/// `C:`, `\\server\share`, `\\.\device`, and after `\\?\` a drive, `UNC\server\share`
/// or a name.
pub open spec fn prefix_len(p: Seq<char>) -> nat {
    if p.len() >= 2 && is_separator(p[0]) && is_separator(p[1]) {
        if is_verbatim(p) {
            if p.len() >= 8 && p[4] == 'U' && p[5] == 'N' && p[6] == 'C' && is_separator(p[7]) {
                two_texts(p, 8)
            } else if drive_at(p, 4) && (p.len() == 6 || is_separator(p[6])) {
                6
            } else {
                next_separator(p, 4)
            }
        } else if p.len() >= 4 && p[2] == '.' && is_separator(p[3]) {
            next_separator(p, 4)
        } else if next_separator(p, 2) > 2 && two_texts(p, 2) > next_separator(p, 2) {
            two_texts(p, 2)
        } else {
            0
        }
    } else if drive_at(p, 0) {
        2
    } else {
        0
    }
}

/// Where the first separator of `cs` stands at or after `from`.
fn find_separator(cs: &Vec<char>, from: usize) -> (at: usize)
    requires
        from <= cs@.len(),
    ensures
        at == next_separator(cs@, from as nat),
        from <= at <= cs@.len(),
{
    let mut at: usize = from;
    while at < cs.len() && cs[at] != '/' && cs[at] != '\\'
        invariant
            from <= at <= cs@.len(),
            next_separator(cs@, from as nat) == next_separator(cs@, at as nat),
        decreases cs@.len() - at,
    {
        at += 1;
    }
    at
}

fn find_two_texts(cs: &Vec<char>, from: usize) -> (at: usize)
    requires
        from <= cs@.len(),
    ensures
        at == two_texts(cs@, from as nat),
        from <= at <= cs@.len(),
{
    let first = find_separator(cs, from);
    if first >= cs.len() {
        return first;
    }
    let second = find_separator(cs, first + 1);
    if second == first + 1 {
        first
    } else {
        second
    }
}

fn finds_drive(cs: &Vec<char>, at: usize) -> (found: bool)
    requires
        at <= cs@.len(),
    ensures
        found == drive_at(cs@, at as int),
{
    if cs.len() - at < 2 || cs[at + 1] != ':' {
        return false;
    }
    let c = cs[at];
    ('a' <= c && c <= 'z') || ('A' <= c && c <= 'Z')
}

fn separates(c: char) -> (yes: bool)
    ensures
        yes == is_separator(c),
{
    c == '/' || c == '\\'
}

fn finds_verbatim(cs: &Vec<char>) -> (yes: bool)
    ensures
        yes == is_verbatim(cs@),
{
    cs.len() >= 4 && cs[0] == '\\' && cs[1] == '\\' && cs[2] == '?' && cs[3] == '\\'
}

fn find_prefix(cs: &Vec<char>) -> (n: usize)
    ensures
        n == prefix_len(cs@),
        n <= cs@.len(),
{
    if cs.len() >= 2 && separates(cs[0]) && separates(cs[1]) {
        if finds_verbatim(cs) {
            if cs.len() >= 8 && cs[4] == 'U' && cs[5] == 'N' && cs[6] == 'C' && separates(cs[7]) {
                find_two_texts(cs, 8)
            } else if finds_drive(cs, 4) && (cs.len() == 6 || separates(cs[6])) {
                6
            } else {
                find_separator(cs, 4)
            }
        } else if cs.len() >= 4 && cs[2] == '.' && separates(cs[3]) {
            find_separator(cs, 4)
        } else {
            let server = find_separator(cs, 2);
            let share = find_two_texts(cs, 2);
            if server > 2 && share > server {
                share
            } else {
                0
            }
        }
    } else if finds_drive(cs, 0) {
        2
    } else {
        0
    }
}

/// Whether a path stands for itself wherever it is used: on Windows it names a
/// share or a device, or a drive with the root behind it.
pub open spec fn is_complete(p: Seq<char>, windows: bool) -> bool {
    if windows {
        prefix_len(p) > 2 || (prefix_len(p) == 2 && p.len() > 2 && is_separator(p[2]))
    } else {
        is_absolute(p)
    }
}

/// Whether a path begins with more than a name: with the root, or on Windows with
/// a drive, a share or a device.
pub open spec fn is_anchored(p: Seq<char>, windows: bool) -> bool {
    is_absolute(p) || (windows && prefix_len(p) > 0)
}

/// Whether a path is complete, and whether it is anchored.
pub fn anchor(p: &str, windows: bool) -> (r: (bool, bool))
    ensures
        r.0 == is_complete(p@, windows),
        r.1 == is_anchored(p@, windows),
{
    let cs = text::chars_of(p);
    let absolute = cs.len() > 0 && cs[0] == '/';
    if !windows {
        return (absolute, absolute);
    }
    let n = find_prefix(&cs);
    (n > 2 || (n == 2 && cs.len() > 2 && separates(cs[2])), absolute || n > 0)
}

/// Where a path leads, by contents: what stands before its root, whether there is
/// a root, and the segments behind it.
pub ghost struct PlaceView {
    pub prefix: Seq<char>,
    pub rooted: bool,
    pub segments: Seq<Seq<char>>,
}

impl PlaceView {
    /// Whether this is `base` or lies below it.
    pub open spec fn lies_below(self, base: PlaceView) -> bool {
        &&& self.prefix == base.prefix
        &&& self.rooted == base.rooted
        &&& base.segments.is_prefix_of(self.segments)
    }

    /// The place without its last segment; `.` where it has none.
    pub open spec fn parent(self) -> PlaceView {
        if self.segments.len() == 0 {
            PlaceView { prefix: Seq::empty(), rooted: false, segments: seq![seq!['.']] }
        } else {
            PlaceView { segments: self.segments.drop_last(), ..self }
        }
    }

    /// The last segment, where it is a name.
    pub open spec fn file_name(self) -> Option<Seq<char>> {
        if self.segments.len() > 0 && is_name(self.segments.last()) {
            Some(self.segments.last())
        } else {
            None
        }
    }

    /// The segments below `base`, with single separators between them.
    pub open spec fn below(self, base: PlaceView) -> Seq<char> {
        slashed(self.segments.skip(base.segments.len() as int))
    }
}

/// Where a path leads. On Windows a share or a device has a root without one being
/// written, unless the path is taken literally.
pub open spec fn place(p: Seq<char>, windows: bool) -> PlaceView {
    if windows && prefix_len(p) > 0 {
        let n = prefix_len(p) as int;
        let rest = portable(p.skip(n), true);
        PlaceView {
            prefix: portable(p.take(n), true),
            rooted: is_absolute(rest) || (n > 2 && !is_verbatim(p)),
            segments: segments(seq!['/'] + rest),
        }
    } else {
        let q = portable(p, windows);
        PlaceView { prefix: Seq::empty(), rooted: is_absolute(q), segments: segments(q) }
    }
}

/// The segments of a place are not empty and hold no separator, and only the first
/// one can be a `.`.
pub proof fn lemma_place_plain(p: Seq<char>, windows: bool)
    ensures
        ({
            let segs = place(p, windows).segments;
            forall|k: int|
                0 <= k < segs.len() ==> (#[trigger] segs[k]).len() > 0 && !segs[k].contains('/')
                    && (segs[k] == seq!['.'] ==> k == 0)
        }),
{
    if windows && prefix_len(p) > 0 {
        lemma_segments_plain(seq!['/'] + portable(p.skip(prefix_len(p) as int), true));
    } else {
        lemma_segments_plain(portable(p, windows));
    }
}

/// Where a path leads.
pub struct Place {
    prefix: String,
    rooted: bool,
    segments: Vec<String>,
}

impl View for Place {
    type V = PlaceView;

    closed spec fn view(&self) -> PlaceView {
        PlaceView {
            prefix: self.prefix@,
            rooted: self.rooted,
            segments: texts(self.segments@),
        }
    }
}

impl Place {
    /// Nowhere in particular.
    pub fn here() -> (place: Place)
        ensures
            place@ == (PlaceView {
                prefix: Seq::empty(),
                rooted: false,
                segments: Seq::empty(),
            }),
    {
        let place = Place { prefix: String::new(), rooted: false, segments: Vec::new() };
        assert(place@.prefix =~= Seq::empty());
        assert(place@.segments =~= Seq::empty());
        place
    }

    /// Where a path leads.
    pub fn of(p: &str, windows: bool) -> (r: Place)
        ensures
            r@ == place(p@, windows),
    {
        let cs = text::chars_of(p);
        let n: usize = if windows {
            find_prefix(&cs)
        } else {
            0
        };
        if n == 0 {
            let (rooted, segs) = split(to_portable(p, windows).as_str());
            let r = Place { prefix: String::new(), rooted, segments: segs };
            assert(r@.prefix =~= Seq::empty());
            return r;
        }
        assert(cs@.subrange(0, n as int) =~= p@.take(n as int));
        assert(cs@.subrange(n as int, cs@.len() as int) =~= p@.skip(n as int));
        let front = text::string_of(vstd::slice::slice_subrange(cs.as_slice(), 0, n));
        let rest = text::string_of(vstd::slice::slice_subrange(cs.as_slice(), n, cs.len()));
        let rest = to_portable(rest.as_str(), true);
        let (absolute, _) = split(rest.as_str());
        let mut rooted_rest = String::new();
        rooted_rest.push('/');
        assert(rooted_rest@ =~= seq!['/']);
        let (_, segs) = split(text::concat(rooted_rest.as_str(), rest.as_str()).as_str());
        Place {
            prefix: to_portable(front.as_str(), true),
            rooted: absolute || (n > 2 && !finds_verbatim(&cs)),
            segments: segs,
        }
    }

    /// The place without its last segment; `.` where it has none.
    pub fn parent(self) -> (q: Place)
        ensures
            q@ == self@.parent(),
    {
        let mut segs = self.segments;
        assert(texts(segs@).len() == segs@.len());
        if segs.len() == 0 {
            let mut dot = String::new();
            dot.push('.');
            assert(dot@ =~= seq!['.']);
            let q = Place { prefix: String::new(), rooted: false, segments: vec![dot] };
            assert(q@.prefix =~= Seq::empty());
            assert(q@.segments =~= seq![seq!['.']]);
            q
        } else {
            let ghost all = texts(segs@);
            let _ = segs.pop();
            assert(texts(segs@) =~= all.drop_last());
            Place { prefix: self.prefix, rooted: self.rooted, segments: segs }
        }
    }

    /// The last segment, where it is a name.
    pub fn file_name(&self) -> (name: Option<String>)
        ensures
            match name {
                Some(n) => self@.file_name() == Some(n@),
                None => self@.file_name() is None,
            },
    {
        assert(texts(self.segments@).len() == self.segments@.len());
        if self.segments.len() == 0 {
            return None;
        }
        let last = self.segments[self.segments.len() - 1].clone();
        if names_something(last.as_str()) {
            Some(last)
        } else {
            None
        }
    }

    /// What follows `base`, where this place lies at or below it.
    pub fn below(&self, base: &Place) -> (rest: Option<String>)
        ensures
            match rest {
                Some(r) => self@.lies_below(base@) && r@ == self@.below(base@),
                None => !self@.lies_below(base@),
            },
    {
        let ghost all = texts(self.segments@);
        let ghost front = texts(base.segments@);
        assert(all.len() == self.segments@.len() && front.len() == base.segments@.len());
        let n: usize = base.segments.len();
        if !text::same_text(self.prefix.as_str(), base.prefix.as_str()) || self.rooted
            != base.rooted || n > self.segments.len() {
            return None;
        }
        for i in 0..n
            invariant
                all == texts(self.segments@),
                front == texts(base.segments@),
                n == base.segments@.len(),
                n <= self.segments@.len(),
                all.len() == self.segments@.len(),
                front.len() == n,
                forall|k: int| 0 <= k < i ==> #[trigger] front[k] == all[k],
        {
            assert(front[i as int] == base.segments@[i as int]@);
            assert(all[i as int] == self.segments@[i as int]@);
            if base.segments[i] != self.segments[i] {
                assert(all.subrange(0, n as int)[i as int] != front[i as int]);
                return None;
            }
        }
        assert(front =~= all.subrange(0, n as int));
        let mut rest: Vec<String> = Vec::new();
        for i in n..self.segments.len()
            invariant
                n <= i <= self.segments@.len(),
                rest@.len() == i - n,
                forall|k: int|
                    0 <= k < rest@.len() ==> (#[trigger] rest@[k])@ == self.segments@[n + k]@,
        {
            rest.push(self.segments[i].clone());
        }
        assert(texts(rest@).take(rest@.len() as int) =~= all.skip(n as int));
        Some(render(false, &rest, rest.len()))
    }
}

/// The pieces of a path are the texts without a separator that, written with
/// single separators between them, give the path: there is one such list.
pub proof fn law_pieces_written_again_give_the_path(s: Seq<char>)
    ensures
        pieces(s).len() > 0,
        forall|k: int| 0 <= k < pieces(s).len() ==> !(#[trigger] pieces(s)[k]).contains('/'),
        slashed(pieces(s)) == s,
    decreases s.len(),
{
    lemma_pieces_nonempty(s);
    lemma_pieces_have_no_separator(s);
    if s.len() > 0 {
        let t = s.drop_last();
        law_pieces_written_again_give_the_path(t);
        let ps = pieces(t);
        if s.last() == '/' {
            assert(ps.push(Seq::<char>::empty()).drop_last() =~= ps);
            assert(slashed(pieces(s)) =~= s);
        } else {
            let qs = pieces(s);
            assert(qs.drop_last() =~= ps.drop_last());
            assert(qs.last() == ps.last().push(s.last()));
            assert(slashed(qs) =~= slashed(ps).push(s.last()));
            assert(slashed(qs) =~= s);
        }
    }
}

/// Texts without a separator, written with single separators between them, are
/// the pieces of what is written.
pub proof fn law_written_texts_are_the_pieces(texts: Seq<Seq<char>>)
    requires
        texts.len() > 0,
        forall|k: int| 0 <= k < texts.len() ==> !(#[trigger] texts[k]).contains('/'),
    ensures
        pieces(slashed(texts)) == texts,
{
    lemma_slashed_pieces(texts);
}

/// Writing texts puts one separator between each and the next.
pub proof fn law_writing_texts(texts: Seq<Seq<char>>, last: Seq<char>)
    ensures
        slashed(seq![last]) == last,
        texts.len() > 0 ==> slashed(texts.push(last)) == slashed(texts) + seq!['/'] + last,
{
    assert(texts.push(last).drop_last() =~= texts);
    assert(slashed(texts).push('/') + last =~= slashed(texts) + seq!['/'] + last);
}

/// The segments of a path are its pieces in order, without the empty ones and
/// without a `.` that is not at the front.
pub proof fn law_segments_of_a_longer_path(s: Seq<char>, name: Seq<char>)
    requires
        !name.contains('/'),
    ensures
        segments(s + seq!['/'] + name) == (if name.len() == 0 || name == seq!['.'] {
            segments(s)
        } else {
            segments(s).push(name)
        }),
        segments(name) == (if name.len() == 0 {
            Seq::empty()
        } else {
            seq![name]
        }),
{
    let p = s.push('/') + name;
    assert(p =~= s + seq!['/'] + name);
    lemma_pieces_split(s, name);
    lemma_single_piece(name);
    lemma_pieces_nonempty(s);
    assert(pieces(name) =~= seq![name]);
    assert(pieces(p) =~= pieces(s).push(name));
    assert(pieces(p).drop_last() =~= pieces(s));
    assert(pieces(name).drop_last() =~= Seq::empty());
    assert(kept(pieces(name).drop_last(), 0) =~= Seq::empty());
    assert(segments(name) =~= (if name.len() == 0 {
        Seq::empty()
    } else {
        seq![name]
    }));
}

/// Putting a relative path below a directory writes the one behind the other with
/// a single separator between them.
pub proof fn law_joining(base: Seq<char>, rel: Seq<char>)
    ensures
        base.len() == 0 ==> joined(base, rel) == rel,
        base.len() > 0 && base.last() == '/' ==> joined(base, rel) == base + rel,
        base.len() > 0 && base.last() != '/' ==> joined(base, rel) == base + seq!['/'] + rel,
{
    if base.len() == 0 {
        assert(base + rel =~= rel);
    }
    assert(base.push('/') + rel =~= base + seq!['/'] + rel);
}

/// A file name is its stem and its suffix; the suffix is the last `.` and what
/// follows it, unless that `.` is at the front.
pub proof fn law_stem_and_suffix(name: Seq<char>)
    ensures
        stem_of(name) + suffix_of(name) == name,
        name.len() > 0 ==> stem_of(name).len() > 0,
        suffix_of(name).len() > 0 ==> suffix_of(name)[0] == '.' && forall|k: int|
            1 <= k < suffix_of(name).len() ==> #[trigger] suffix_of(name)[k] != '.',
        suffix_of(name).len() == 0 ==> forall|k: int| 1 <= k < name.len() ==> #[trigger] name[k]
            != '.',
{
    let n = before_last_dot(name) as int;
    lemma_before_last_dot(name);
    lemma_last_dot(name);
    if n > 0 {
        assert(name.take(n) + name.skip(n) =~= name);
        assert forall|k: int| 1 <= k < suffix_of(name).len() implies #[trigger] suffix_of(name)[k]
            != '.' by {
            assert(suffix_of(name)[k] == name[n + k]);
        }
    } else {
        assert(name + Seq::<char>::empty() =~= name);
    }
}

proof fn lemma_last_dot(name: Seq<char>)
    ensures
        ({
            let n = before_last_dot(name) as int;
            &&& n > 0 ==> n < name.len() && name[n] == '.'
            &&& forall|k: int| n < k < name.len() ==> #[trigger] name[k] != '.'
        }),
    decreases name.len(),
{
    if name.len() > 0 && name.last() != '.' {
        let t = name.drop_last();
        lemma_last_dot(t);
        let n = before_last_dot(name) as int;
        assert forall|k: int| n < k < name.len() implies #[trigger] name[k] != '.' by {
            if k < t.len() {
                assert(t[k] == name[k]);
            }
        }
    }
}

/// What comes after the last separator is the file name, unless it is `.` or
/// `..` or there is nothing.
pub proof fn law_file_name_is_the_last_segment(p: Seq<char>)
    ensures
        file_name_of(p) matches Some(name) ==> name == segments(p).last() && name != seq!['.']
            && name != seq!['.', '.'],
        file_name_of(p) is None ==> segments(p).len() == 0 || segments(p).last() == seq!['.']
            || segments(p).last() == seq!['.', '.'],
{
}

proof fn lemma_next_separator(p: Seq<char>, from: nat, to: nat)
    requires
        from <= to <= p.len(),
        forall|k: int| from <= k < to ==> #[trigger] p[k] != '/' && p[k] != '\\',
        to < p.len() ==> p[to as int] == '/' || p[to as int] == '\\',
    ensures
        next_separator(p, from) == to,
    decreases to - from,
{
    if from < to {
        assert(p[from as int] != '/');
        lemma_next_separator(p, from + 1, to);
    }
}

/// On Windows a path with a letter and a colon in front names a drive, and one
/// that begins with neither these nor a separator names nothing of the kind.
pub proof fn law_drives(p: Seq<char>)
    requires
        p.len() > 0,
    ensures
        ({
            let letter = 'a' <= p[0] <= 'z' || 'A' <= p[0] <= 'Z';
            &&& letter && p.len() >= 2 && p[1] == ':' ==> prefix_len(p) == 2
            &&& p[0] != '/' && p[0] != '\\' && !(letter && p.len() >= 2 && p[1] == ':')
                ==> prefix_len(p) == 0
        }),
        p.len() >= 2 && (p[0] == '/' || p[0] == '\\') && p[1] != '/' && p[1] != '\\'
            ==> prefix_len(p) == 0,
{
}

/// On Windows a server and a share behind two separators are a prefix, with
/// whatever follows them.
pub proof fn law_shares(server: Seq<char>, share: Seq<char>, rest: Seq<char>)
    requires
        server.len() > 0,
        share.len() > 0,
        server != seq!['?'],
        server != seq!['.'],
        forall|k: int|
            0 <= k < server.len() ==> #[trigger] server[k] != '/' && server[k] != '\\',
        forall|k: int| 0 <= k < share.len() ==> #[trigger] share[k] != '/' && share[k] != '\\',
        rest.len() > 0 ==> rest[0] == '/' || rest[0] == '\\',
    ensures
        prefix_len(seq!['\\', '\\'] + server + seq!['\\'] + share + rest) == 3 + server.len()
            + share.len(),
{
    let p = seq!['\\', '\\'] + server + seq!['\\'] + share + rest;
    let a = 2 + server.len();
    let b = a + 1 + share.len();
    assert(p[a as int] == '\\');
    assert forall|k: int| 2 <= k < a implies #[trigger] p[k] != '/' && p[k] != '\\' by {
        assert(p[k] == server[k - 2]);
    }
    assert forall|k: int| a + 1 <= k < b implies #[trigger] p[k] != '/' && p[k] != '\\' by {
        assert(p[k] == share[k - a - 1]);
    }
    if rest.len() > 0 {
        assert(p[b as int] == rest[0]);
    }
    lemma_next_separator(p, 2, a);
    lemma_next_separator(p, a + 1, b);
    if server.len() == 1 {
        assert(p[2] == server[0]);
        assert(server =~= seq![server[0]]);
    } else {
        assert(p[3] == server[1]);
    }
}

/// Off Windows a path leads where its text says; on Windows a path without a drive
/// or the like does, with either separator.
pub proof fn law_places(p: Seq<char>)
    ensures
        place(p, false) == (PlaceView {
            prefix: Seq::empty(),
            rooted: p.len() > 0 && p[0] == '/',
            segments: segments(p),
        }),
        prefix_len(p) == 0 ==> place(p, true).segments == segments(text::replaced(p, '\\', '/'))
            && place(p, true).rooted == (p.len() > 0 && (p[0] == '/' || p[0] == '\\')),
        prefix_len(p) > 0 ==> place(p, true).segments == segments(
            seq!['/'] + text::replaced(p.skip(prefix_len(p) as int), '\\', '/'),
        ),
{
}

/// One place lies below another exactly where it has the same prefix and root and
/// the other's segments come first.
pub proof fn law_below(p: PlaceView, base: PlaceView, tail: Seq<Seq<char>>)
    requires
        p.prefix == base.prefix,
        p.rooted == base.rooted,
        p.segments == base.segments + tail,
    ensures
        p.lies_below(base),
        p.below(base) == slashed(tail),
        tail.len() > 0 ==> p.parent().segments == p.segments.drop_last() && p.parent().prefix
            == p.prefix,
{
    assert(base.segments =~= p.segments.subrange(0, base.segments.len() as int));
    assert(p.segments.skip(base.segments.len() as int) =~= tail);
}

/// The path without its last segment has the same root and the segments before
/// that one.
pub proof fn law_parent(p: Seq<char>)
    requires
        segments(p).len() > 0,
    ensures
        segments(parent_text(p)) == segments(p).drop_last(),
        is_absolute(parent_text(p)) <==> p.len() > 0 && p[0] == '/',
{
    lemma_segments_plain(p);
    let front = segments(p).drop_last();
    assert forall|k: int| 0 <= k < front.len() implies (#[trigger] front[k]).len() > 0
        && !front[k].contains('/') && (front[k] == seq!['.'] ==> k == 0 && !is_absolute(p)) by {
        assert(front[k] == segments(p)[k]);
    }
    lemma_rendered_segments(is_absolute(p), front);
}

/// What lies in a directory has its root, its segments in front, and no way up
/// behind them; what is below a directory has its root and its segments in front.
pub proof fn law_lying_in(dir: Seq<char>, p: Seq<char>, names: Seq<Seq<char>>)
    ensures
        lies_in(dir, p) ==> (p.len() > 0 && p[0] == '/' <==> dir.len() > 0 && dir[0] == '/')
            && segments(p).len() >= segments(dir).len() && forall|k: int|
            0 <= k < segments(p).len() ==> if k < segments(dir).len() {
                #[trigger] segments(p)[k] == segments(dir)[k]
            } else {
                segments(p)[k] != seq!['.', '.']
            },
        begins_with(p, dir) && segments(p) == names ==> names.len() >= segments(dir).len()
            && forall|k: int|
            0 <= k < segments(dir).len() ==> #[trigger] names[k] == segments(dir)[k],
{
    let d = segments(dir);
    let s = segments(p);
    if d.is_prefix_of(s) {
        assert(d == s.subrange(0, d.len() as int));
        assert forall|k: int| 0 <= k < d.len() implies #[trigger] s[k] == d[k] by {
            assert(s.subrange(0, d.len() as int)[k] == s[k]);
        }
    }
}

/// On Windows a path that is taken literally may name a drive, a share behind
/// `UNC`, or a device by its name; a share or a device has a root even where none
/// is written, and so has a drive only where it is.
pub proof fn law_literal_paths_and_devices(p: Seq<char>)
    ensures
        ({
            let two = p.len() >= 4 && (p[0] == '/' || p[0] == '\\') && (p[1] == '/' || p[1]
                == '\\');
            let literal = p.len() >= 4 && p[0] == '\\' && p[1] == '\\' && p[2] == '?' && p[3]
                == '\\';
            &&& literal && p.len() >= 6 && ('a' <= p[4] <= 'z' || 'A' <= p[4] <= 'Z') && p[5] == ':'
                && (p.len() == 6 || p[6] == '/' || p[6] == '\\') ==> prefix_len(p) == 6
            &&& two && p[2] == '.' && (p[3] == '/' || p[3] == '\\') ==> prefix_len(p) >= 4
            &&& prefix_len(p) > 2 && !literal ==> place(p, true).rooted
            &&& prefix_len(p) == 2 ==> (place(p, true).rooted <==> p.len() > 2 && (p[2] == '/'
                || p[2] == '\\'))
        }),
{
    lemma_not_before(p, 4);
    if prefix_len(p) == 2 {
        let rest = portable(p.skip(2), true);
        assert(rest.len() == p.len() - 2);
    }
}

proof fn lemma_not_before(p: Seq<char>, from: nat)
    ensures
        next_separator(p, from) >= from,
    decreases p.len() - from,
{
    if from < p.len() && !is_separator(p[from as int]) {
        lemma_not_before(p, from + 1);
    }
}

/// A list of texts is seen text by text, in order.
pub proof fn law_texts_are_seen_whole(v: Seq<String>)
    ensures
        texts(v).len() == v.len(),
        forall|i: int| 0 <= i < v.len() ==> #[trigger] texts(v)[i] == v[i]@,
{
}

/// Every path begins with itself, and the relation is transitive. One path begins
/// with another where each segment of the other stands at its own place in it.
pub proof fn law_beginning(p: Seq<char>, dir: Seq<char>, above: Seq<char>)
    ensures
        begins_with(p, p),
        begins_with(p, dir) && begins_with(dir, above) ==> begins_with(p, above),
        begins_with(p, dir) && begins_with(dir, p) ==> segments(p) == segments(dir),
        begins_with(p, dir) <==> {
            &&& (p.len() > 0 && p[0] == '/') == (dir.len() > 0 && dir[0] == '/')
            &&& segments(dir).len() <= segments(p).len()
            &&& forall|k: int|
                0 <= k < segments(dir).len() ==> #[trigger] segments(dir)[k] == segments(p)[k]
        },
{
    let d = segments(dir);
    if d.len() <= segments(p).len() && (forall|k: int|
        0 <= k < d.len() ==> #[trigger] d[k] == segments(p)[k]) {
        assert(d =~= segments(p).subrange(0, d.len() as int));
    }
    assert(segments(p) =~= segments(p).subrange(0, segments(p).len() as int));
    if begins_with(p, dir) {
        assert forall|k: int| 0 <= k < d.len() implies #[trigger] d[k] == segments(p)[k] by {
            assert(segments(p).subrange(0, d.len() as int)[k] == segments(p)[k]);
        }
        if begins_with(dir, above) {
            let a = segments(above);
            assert(a =~= segments(p).subrange(0, a.len() as int));
        }
        if begins_with(dir, p) {
            assert(d =~= segments(p));
        }
    }
}

/// Where paths are written with `/` alone, a path is complete, and anchored, where
/// it begins with one. On Windows one that begins with `/` is anchored; a drive
/// anchors a path and makes it complete where a separator follows it; a path that
/// begins with neither a separator nor a drive is neither.
pub proof fn law_anchors(p: Seq<char>)
    ensures
        is_complete(p, false) <==> p.len() > 0 && p[0] == '/',
        is_anchored(p, false) <==> p.len() > 0 && p[0] == '/',
        is_complete(p, true) ==> is_anchored(p, true),
        p.len() > 0 && p[0] == '/' ==> is_anchored(p, true),
        p.len() >= 2 && ('a' <= p[0] <= 'z' || 'A' <= p[0] <= 'Z') && p[1] == ':' ==> {
            &&& is_anchored(p, true)
            &&& is_complete(p, true) <==> p.len() > 2 && (p[2] == '/' || p[2] == '\\')
        },
        p.len() == 0 || (p[0] != '/' && p[0] != '\\' && !(p.len() >= 2 && p[1] == ':' && ('a'
            <= p[0] <= 'z' || 'A' <= p[0] <= 'Z'))) ==> !is_anchored(p, true) && !is_complete(
            p,
            true,
        ),
{
}

/// The name of a place is its last segment, unless that is `.` or `..`; a place
/// with no segment has none.
pub proof fn law_name_of_a_place(v: PlaceView, last: Seq<char>)
    ensures
        v.segments.len() == 0 ==> v.file_name() is None,
        ({
            let longer = PlaceView { segments: v.segments.push(last), ..v };
            &&& last == ".."@ || last == "."@ ==> longer.file_name() is None
            &&& last != ".."@ && last != "."@ ==> longer.file_name() == Some(last)
        }),
{
    reveal_strlit(".");
    reveal_strlit("..");
    let longer = PlaceView { segments: v.segments.push(last), ..v };
    assert(longer.segments.last() == last);
    assert("."@ =~= seq!['.']);
    assert(".."@ =~= seq!['.', '.']);
}

} // verus!
