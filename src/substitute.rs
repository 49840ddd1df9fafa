//! `{{KEY}}` substitution: each binding, in order, replaces every occurrence
//! of its placeholder in the text left by the bindings before it.
use vstd::prelude::*;

use crate::bindings::{binding_models, bindings_of, VariableBinding};
use crate::text::char_vec;

verus! {

/// The placeholder `{{key}}`.
pub open spec fn placeholder(key: Seq<char>) -> Seq<char> {
    seq!['{', '{'] + key + seq!['}', '}']
}

/// `pat` occurs in `s` starting at `i`.
pub open spec fn occurs_at(s: Seq<char>, pat: Seq<char>, i: int) -> bool {
    0 <= i && i + pat.len() <= s.len() && s.subrange(i, i + pat.len()) == pat
}

/// `pat` occurs somewhere in `s`.
pub open spec fn occurs(s: Seq<char>, pat: Seq<char>) -> bool {
    exists|i: int| occurs_at(s, pat, i)
}

/// `s` with every occurrence of `pat` replaced by `val`, scanning from the left
/// and resuming after each replaced occurrence.
pub open spec fn replace_all(s: Seq<char>, pat: Seq<char>, val: Seq<char>) -> Seq<char>
    decreases s.len(),
{
    if s.len() == 0 {
        s
    } else if pat.len() > 0 && occurs_at(s, pat, 0) {
        val + replace_all(s.skip(pat.len() as int), pat, val)
    } else {
        seq![s[0]] + replace_all(s.skip(1), pat, val)
    }
}

/// How many occurrences `replace_all` replaces.
pub open spec fn count_matches(s: Seq<char>, pat: Seq<char>) -> nat
    decreases s.len(),
{
    if s.len() == 0 {
        0
    } else if pat.len() > 0 && occurs_at(s, pat, 0) {
        1 + count_matches(s.skip(pat.len() as int), pat)
    } else {
        count_matches(s.skip(1), pat)
    }
}

/// The text after applying the bindings `bs` to `text`, in order.
pub open spec fn apply_bindings(text: Seq<char>, bs: Seq<(Seq<char>, Seq<char>)>) -> Seq<char>
    decreases bs.len(),
{
    if bs.len() == 0 {
        text
    } else {
        replace_all(apply_bindings(text, bs.drop_last()), placeholder(bs.last().0), bs.last().1)
    }
}

/// How many of the bindings `bs` replaced at least one placeholder.
pub open spec fn applied_count(text: Seq<char>, bs: Seq<(Seq<char>, Seq<char>)>) -> nat
    decreases bs.len(),
{
    if bs.len() == 0 {
        0
    } else {
        applied_count(text, bs.drop_last()) + if count_matches(
            apply_bindings(text, bs.drop_last()),
            placeholder(bs.last().0),
        ) > 0 {
            1nat
        } else {
            0nat
        }
    }
}

/// Whether `pat` occurs in `chars` at `i`.
fn matches_at(chars: &Vec<char>, i: usize, pat: &Vec<char>) -> (r: bool)
    requires
        i <= chars@.len(),
    ensures
        r == occurs_at(chars@, pat@, i as int),
{
    if pat.len() > chars.len() - i {
        return false;
    }
    let mut j: usize = 0;
    while j < pat.len()
        invariant
            i + pat@.len() <= chars@.len(),
            chars@.len() <= usize::MAX,
            j <= pat@.len(),
            forall|k: int| 0 <= k < j ==> chars@[i + k] == pat@[k],
        decreases pat.len() - j,
    {
        if chars[i + j] != pat[j] {
            assert(chars@.subrange(i as int, i + pat@.len())[j as int] != pat@[j as int]);
            return false;
        }
        j = j + 1;
    }
    assert(chars@.subrange(i as int, i + pat@.len()) =~= pat@);
    true
}

/// The placeholder `{{key}}` as a string.
fn placeholder_string(key: &str) -> (r: String)
    ensures
        r@ == placeholder(key@),
{
    let mut p = String::from_str("{{");
    p.append(key);
    p.append("}}");
    proof {
        reveal_strlit("{{");
        reveal_strlit("}}");
    }
    assert(p@ =~= placeholder(key@));
    p
}

/// Replaces every occurrence of `pat` in `text` by `val`; also returns how many
/// occurrences were replaced.
pub fn replace_occurrences(text: &str, pat: &str, val: &str) -> (r: (String, usize))
    requires
        pat@.len() > 0,
    ensures
        r.0@ == replace_all(text@, pat@, val@),
        r.1 == count_matches(text@, pat@),
{
    let chars = char_vec(text);
    let pchars = char_vec(pat);
    let n = chars.len();
    let plen = pchars.len();
    let ghost s = text@;
    let mut out = String::new();
    let mut count: usize = 0;
    let mut seg: usize = 0;
    let mut i: usize = 0;
    assert(s.skip(0) =~= s);
    while i < n
        invariant
            chars@ == s,
            s == text@,
            pchars@ == pat@,
            n == s.len(),
            plen == pat@.len(),
            plen > 0,
            seg <= i <= n,
            count <= i,
            out@ + s.subrange(seg as int, i as int) + replace_all(s.skip(i as int), pat@, val@)
                == replace_all(s, pat@, val@),
            count + count_matches(s.skip(i as int), pat@) == count_matches(s, pat@),
        decreases n - i,
    {
        let ghost rest = s.skip(i as int);
        if matches_at(&chars, i, &pchars) {
            proof {
                assert(rest.subrange(0, plen as int) =~= s.subrange(i as int, i + plen));
                assert(rest.skip(plen as int) =~= s.skip(i + plen));
                assert(s.subrange(i + plen, i + plen) =~= Seq::<char>::empty());
            }
            let ghost before = out@;
            out.append(text.substring_char(seg, i));
            out.append(val);
            proof {
                assert(out@ + s.subrange(i + plen, i + plen) + replace_all(
                    s.skip(i + plen),
                    pat@,
                    val@,
                ) =~= before + s.subrange(seg as int, i as int) + replace_all(rest, pat@, val@));
            }
            count = count + 1;
            i = i + plen;
            seg = i;
        } else {
            proof {
                if occurs_at(rest, pat@, 0) {
                    assert(rest.subrange(0, plen as int) =~= s.subrange(i as int, i + plen));
                }
                assert(rest.skip(1) =~= s.skip(i + 1));
                assert(s.subrange(seg as int, i + 1) =~= s.subrange(seg as int, i as int) + seq![
                    s[i as int],
                ]);
                assert(out@ + s.subrange(seg as int, i + 1) + replace_all(s.skip(i + 1), pat@, val@)
                    =~= out@ + s.subrange(seg as int, i as int) + replace_all(rest, pat@, val@));
            }
            i = i + 1;
        }
    }
    out.append(text.substring_char(seg, n));
    proof {
        assert(s.skip(n as int) =~= Seq::<char>::empty());
    }
    assert(out@ =~= replace_all(s, pat@, val@));
    (out, count)
}

/// Applies the bindings, in order, to `target`: each replaces every `{{key}}`
/// by its value in the text that the bindings before it left. Placeholders
/// without a binding stay as they are, and values are not expanded again.
/// Also returns how many bindings replaced at least one placeholder.
pub fn substitute(target: &str, bindings: &Vec<VariableBinding>) -> (r: (String, usize))
    ensures
        r.0@ == apply_bindings(target@, binding_models(bindings@)),
        r.1 == applied_count(target@, binding_models(bindings@)),
{
    let ghost bs = binding_models(bindings@);
    let mut cur = String::from_str(target);
    let mut applied: usize = 0;
    let mut k: usize = 0;
    assert(bs.take(0) =~= Seq::<(Seq<char>, Seq<char>)>::empty());
    while k < bindings.len()
        invariant
            bs == binding_models(bindings@),
            k <= bindings@.len(),
            applied <= k,
            cur@ == apply_bindings(target@, bs.take(k as int)),
            applied == applied_count(target@, bs.take(k as int)),
        decreases bindings.len() - k,
    {
        let b = &bindings[k];
        proof {
            assert(bs.take(k + 1).drop_last() =~= bs.take(k as int));
            assert(bs.take(k + 1).last() == b@);
        }
        let pat = placeholder_string(b.key.as_str());
        let (next, hits) = replace_occurrences(cur.as_str(), pat.as_str(), b.value.as_str());
        if hits > 0 {
            applied = applied + 1;
        }
        cur = next;
        k = k + 1;
    }
    assert(bs.take(k as int) =~= bs);
    (cur, applied)
}

/// A `pat` occurrence in `s` past its first character is one in `s.skip(1)`.
proof fn lemma_occurs_at_skip1(s: Seq<char>, pat: Seq<char>, j: int)
    requires
        s.len() > 0,
        occurs_at(s.skip(1), pat, j),
    ensures
        occurs_at(s, pat, j + 1),
{
    assert(s.skip(1).subrange(j, j + pat.len()) =~= s.subrange(j + 1, j + 1 + pat.len()));
}

/// Text in which `pat` does not occur is left as it is.
pub proof fn lemma_replace_absent(s: Seq<char>, pat: Seq<char>, val: Seq<char>)
    requires
        pat.len() > 0,
        !occurs(s, pat),
    ensures
        replace_all(s, pat, val) == s,
        count_matches(s, pat) == 0,
    decreases s.len(),
{
    if s.len() > 0 {
        assert(!occurs_at(s, pat, 0));
        assert forall|j: int| !occurs_at(s.skip(1), pat, j) by {
            if occurs_at(s.skip(1), pat, j) {
                lemma_occurs_at_skip1(s, pat, j);
            }
        }
        lemma_replace_absent(s.skip(1), pat, val);
        assert(seq![s[0]] + s.skip(1) =~= s);
    }
}

/// Substitution leaves a text unchanged, and counts no binding as applied,
/// when none of the bindings' placeholders occurs in it.
pub proof fn lemma_substitute_without_placeholders(
    text: Seq<char>,
    bs: Seq<(Seq<char>, Seq<char>)>,
)
    requires
        forall|i: int| 0 <= i < bs.len() ==> !occurs(text, #[trigger] placeholder(bs[i].0)),
    ensures
        apply_bindings(text, bs) == text,
        applied_count(text, bs) == 0,
    decreases bs.len(),
{
    if bs.len() > 0 {
        let prev = bs.drop_last();
        assert forall|i: int| 0 <= i < prev.len() implies !occurs(
            text,
            #[trigger] placeholder(prev[i].0),
        ) by {
            assert(prev[i] == bs[i]);
        }
        lemma_substitute_without_placeholders(text, prev);
        assert(placeholder(bs[bs.len() - 1].0).len() > 0);
        lemma_replace_absent(text, placeholder(bs.last().0), bs.last().1);
    }
}

/// A piece of a target text: literal text, or the placeholder of a key.
pub enum Piece {
    Text(Seq<char>),
    Hole(Seq<char>),
}

/// The characters of a piece.
pub open spec fn piece_chars(p: Piece) -> Seq<char> {
    match p {
        Piece::Text(t) => t,
        Piece::Hole(k) => placeholder(k),
    }
}

/// The text that a list of pieces spells.
pub open spec fn render(ps: Seq<Piece>) -> Seq<char>
    decreases ps.len(),
{
    if ps.len() == 0 {
        Seq::empty()
    } else {
        piece_chars(ps[0]) + render(ps.drop_first())
    }
}

/// A key that holds no brace.
pub open spec fn plain_key(k: Seq<char>) -> bool {
    !k.contains('{') && !k.contains('}')
}

/// The pair `{{` that opens a placeholder.
pub open spec fn open_pair() -> Seq<char> {
    seq!['{', '{']
}

/// A piece fit to stand in a target: a literal holds no `{{`, and ends in `{`
/// only when it is the `last` piece; a placeholder names a plain key.
pub open spec fn piece_ok(p: Piece, last: bool) -> bool {
    match p {
        Piece::Text(t) => !occurs(t, open_pair()) && (t.len() > 0 && t.last() == '{' ==> last),
        Piece::Hole(k) => plain_key(k),
    }
}

/// Every piece is fit to stand where it stands.
pub open spec fn well_formed_pieces(ps: Seq<Piece>) -> bool {
    forall|i: int| 0 <= i < ps.len() ==> piece_ok(#[trigger] ps[i], i == ps.len() - 1)
}

/// Bindings whose keys are plain and whose values hold no `{`.
pub open spec fn plain_bindings(bs: Seq<(Seq<char>, Seq<char>)>) -> bool {
    forall|i: int| 0 <= i < bs.len() ==> plain_key(#[trigger] bs[i].0) && !bs[i].1.contains('{')
}

/// `ps` with each placeholder of `k` turned into the text `v`.
pub open spec fn fill(ps: Seq<Piece>, k: Seq<char>, v: Seq<char>) -> Seq<Piece> {
    ps.map_values(|p: Piece| if p == Piece::Hole(k) { Piece::Text(v) } else { p })
}

/// `ps` with the bindings `bs` filled in, in order.
pub open spec fn fill_all(ps: Seq<Piece>, bs: Seq<(Seq<char>, Seq<char>)>) -> Seq<Piece>
    decreases bs.len(),
{
    if bs.len() == 0 {
        ps
    } else {
        fill(fill_all(ps, bs.drop_last()), bs.last().0, bs.last().1)
    }
}

proof fn lemma_placeholder_chars(k: Seq<char>)
    ensures
        placeholder(k).len() == k.len() + 4,
        placeholder(k)[0] == '{',
        placeholder(k)[1] == '{',
        forall|i: int| 0 <= i < k.len() ==> #[trigger] placeholder(k)[i + 2] == k[i],
        placeholder(k)[k.len() as int + 2] == '}',
        placeholder(k)[k.len() as int + 3] == '}',
{
}

/// No occurrence of `pat` starts inside `t`: replacing in `t + r` keeps `t`.
proof fn lemma_replace_after_prefix(t: Seq<char>, r: Seq<char>, pat: Seq<char>, val: Seq<char>)
    requires
        pat.len() > 0,
        forall|j: int| 0 <= j < t.len() ==> !occurs_at(t + r, pat, j),
    ensures
        replace_all(t + r, pat, val) == t + replace_all(r, pat, val),
    decreases t.len(),
{
    let s = t + r;
    if t.len() == 0 {
        assert(s =~= r);
    } else {
        assert(!occurs_at(s, pat, 0));
        assert(s.skip(1) =~= t.skip(1) + r);
        assert forall|j: int| 0 <= j < t.skip(1).len() implies !occurs_at(t.skip(1) + r, pat, j) by {
            if occurs_at(t.skip(1) + r, pat, j) {
                lemma_occurs_at_skip1(s, pat, j);
            }
        }
        lemma_replace_after_prefix(t.skip(1), r, pat, val);
        assert(seq![s[0]] + (t.skip(1) + replace_all(r, pat, val)) =~= t + replace_all(r, pat, val));
    }
}

/// A text without `{` holds no `{{` and does not end in `{`.
proof fn lemma_no_open(v: Seq<char>)
    requires
        !v.contains('{'),
    ensures
        !occurs(v, open_pair()),
        v.len() > 0 ==> v.last() != '{',
{
    if occurs(v, open_pair()) {
        let i = choose|i: int| occurs_at(v, open_pair(), i);
        assert(v.subrange(i, i + 2)[0] == v[i]);
        assert(v.contains(v[i]));
    }
    if v.len() > 0 {
        assert(v.contains(v[v.len() - 1]));
    }
}

/// An occurrence in a suffix is an occurrence in the whole, and back.
proof fn lemma_occurs_at_skip(s: Seq<char>, pat: Seq<char>, m: int, i: int)
    requires
        0 <= m <= s.len(),
        0 <= i,
    ensures
        occurs_at(s.skip(m), pat, i) <==> occurs_at(s, pat, i + m),
{
    if i + pat.len() <= s.len() - m {
        assert(s.skip(m).subrange(i, i + pat.len()) =~= s.subrange(i + m, i + m + pat.len()));
    }
}

/// No placeholder of a plain key starts inside a fit piece, unless the piece
/// is that very placeholder.
proof fn lemma_no_match_inside(p: Piece, r: Seq<char>, k: Seq<char>, j: int)
    requires
        plain_key(k),
        piece_ok(p, r.len() == 0),
        p != Piece::Hole(k),
        0 <= j < piece_chars(p).len(),
    ensures
        !occurs_at(piece_chars(p) + r, placeholder(k), j),
{
    let c = piece_chars(p);
    let s = c + r;
    let pat = placeholder(k);
    lemma_placeholder_chars(k);
    if occurs_at(s, pat, j) {
        assert forall|i: int| 0 <= i < pat.len() implies s[j + i] == #[trigger] pat[i] by {
            assert(s.subrange(j, j + pat.len())[i] == pat[i]);
        }
        assert(s[j] == '{');
        match p {
            Piece::Text(t) => {
                assert(s[j + 1] == '{');
                if j + 1 < t.len() {
                    assert(t.subrange(j, j + 2) =~= open_pair());
                    assert(occurs_at(t, open_pair(), j));
                } else {
                    assert(t.last() == '{');
                }
            },
            Piece::Hole(k2) => {
                lemma_placeholder_chars(k2);
                let m = k.len() as int;
                let m2 = k2.len() as int;
                if j == 0 {
                    if m < m2 {
                        assert(pat[m + 2] == '}');
                        assert(s[m + 2] == k2[m]);
                        assert(k2.contains(k2[m]));
                    } else if m > m2 {
                        assert(s[m2 + 2] == c[m2 + 2]);
                        assert(pat[m2 + 2] == k[m2]);
                        assert(k.contains(k[m2]));
                    } else {
                        assert forall|i: int| 0 <= i < m implies k[i] == k2[i] by {
                            assert(pat[i + 2] == k[i]);
                            assert(s[i + 2] == k2[i]);
                        }
                        assert(k =~= k2);
                    }
                } else if j == 1 {
                    assert(pat[1] == '{');
                    if m2 > 0 {
                        assert(s[2] == k2[0]);
                        assert(k2.contains(k2[0]));
                    } else {
                        assert(s[2] == c[2]);
                    }
                } else if j < m2 + 2 {
                    assert(s[j] == k2[j - 2]);
                    assert(k2.contains(k2[j - 2]));
                } else {
                    assert(s[j] == c[j]);
                }
            },
        }
    }
}

/// The pieces after the first of well-formed pieces are well formed.
proof fn lemma_rest_well_formed(ps: Seq<Piece>)
    requires
        ps.len() > 0,
        well_formed_pieces(ps),
    ensures
        well_formed_pieces(ps.drop_first()),
        piece_ok(ps[0], render(ps.drop_first()).len() == 0),
{
    let rest = ps.drop_first();
    assert forall|i: int| 0 <= i < rest.len() implies piece_ok(
        #[trigger] rest[i],
        i == rest.len() - 1,
    ) by {
        assert(rest[i] == ps[i + 1]);
        assert(piece_ok(ps[i + 1], i + 1 == ps.len() - 1));
    }
    assert(piece_ok(ps[0], 0 == ps.len() - 1));
    if rest.len() == 0 {
        assert(render(rest) == Seq::<char>::empty());
    }
}

/// Substituting one binding of a plain key into well-formed pieces fills
/// exactly that key's placeholders.
proof fn lemma_replace_render(ps: Seq<Piece>, k: Seq<char>, v: Seq<char>)
    requires
        well_formed_pieces(ps),
        plain_key(k),
    ensures
        replace_all(render(ps), placeholder(k), v) == render(fill(ps, k, v)),
    decreases ps.len(),
{
    lemma_placeholder_chars(k);
    let pat = placeholder(k);
    if ps.len() == 0 {
        assert(fill(ps, k, v).len() == 0);
    } else {
        let p = ps[0];
        let rest = ps.drop_first();
        lemma_rest_well_formed(ps);
        lemma_replace_render(rest, k, v);
        assert(fill(ps, k, v).drop_first() =~= fill(rest, k, v));
        if p == Piece::Hole(k) {
            let s = pat + render(rest);
            assert(s.subrange(0, pat.len() as int) =~= pat);
            assert(s.skip(pat.len() as int) =~= render(rest));
        } else {
            assert forall|j: int| 0 <= j < piece_chars(p).len() implies !occurs_at(
                piece_chars(p) + render(rest),
                pat,
                j,
            ) by {
                lemma_no_match_inside(p, render(rest), k, j);
            }
            lemma_replace_after_prefix(piece_chars(p), render(rest), pat, v);
        }
    }
}

/// Filling bindings into well-formed pieces matches substituting them into the
/// text, and keeps the pieces well formed; a placeholder left is one whose key
/// no binding names.
proof fn lemma_apply_render(ps: Seq<Piece>, bs: Seq<(Seq<char>, Seq<char>)>)
    requires
        well_formed_pieces(ps),
        plain_bindings(bs),
    ensures
        apply_bindings(render(ps), bs) == render(fill_all(ps, bs)),
        well_formed_pieces(fill_all(ps, bs)),
        fill_all(ps, bs).len() == ps.len(),
        forall|i: int|
            0 <= i < ps.len() && #[trigger] fill_all(ps, bs)[i] is Hole ==> fill_all(ps, bs)[i]
                == ps[i] && forall|j: int| 0 <= j < bs.len() ==> bs[j].0 != ps[i]->Hole_0,
    decreases bs.len(),
{
    if bs.len() > 0 {
        let prev = bs.drop_last();
        assert forall|i: int| 0 <= i < prev.len() implies plain_key(#[trigger] prev[i].0)
            && !prev[i].1.contains('{') by {
            assert(prev[i] == bs[i]);
            assert(plain_key(bs[i].0));
        }
        assert(plain_bindings(prev));
        lemma_apply_render(ps, prev);
        let f = fill_all(ps, prev);
        let (k, v) = bs.last();
        assert(plain_key(bs[bs.len() - 1].0));
        assert(bs[bs.len() - 1].1 == v);
        lemma_no_open(v);
        lemma_replace_render(f, k, v);
        let g = fill(f, k, v);
        assert forall|i: int| 0 <= i < g.len() implies piece_ok(
            #[trigger] g[i],
            i == g.len() - 1,
        ) by {
            assert(piece_ok(f[i], i == f.len() - 1));
        }
        assert forall|i: int| 0 <= i < ps.len() && #[trigger] g[i] is Hole implies g[i] == ps[i]
            && forall|j: int| 0 <= j < bs.len() ==> bs[j].0 != ps[i]->Hole_0 by {
            assert(f[i] is Hole);
            assert forall|j: int| 0 <= j < bs.len() implies bs[j].0 != ps[i]->Hole_0 by {
                if j < bs.len() - 1 {
                    assert(prev[j] == bs[j]);
                }
            }
        }
    }
}

/// Text spelled by well-formed literal pieces holds no `{{`.
proof fn lemma_render_literals(ps: Seq<Piece>)
    requires
        well_formed_pieces(ps),
        forall|i: int| 0 <= i < ps.len() ==> #[trigger] ps[i] is Text,
    ensures
        !occurs(render(ps), open_pair()),
    decreases ps.len(),
{
    if ps.len() > 0 {
        let rest = ps.drop_first();
        lemma_rest_well_formed(ps);
        assert forall|i: int| 0 <= i < rest.len() implies #[trigger] rest[i] is Text by {
            assert(rest[i] == ps[i + 1]);
        }
        lemma_render_literals(rest);
        assert(ps[0] is Text);
        let t = ps[0]->Text_0;
        let r = render(rest);
        let s = render(ps);
        assert(s == t + r);
        if occurs(s, open_pair()) {
            let i = choose|i: int| occurs_at(s, open_pair(), i);
            assert(s.subrange(i, i + 2)[0] == s[i]);
            assert(s.subrange(i, i + 2)[1] == s[i + 1]);
            if i + 1 < t.len() {
                assert(t.subrange(i, i + 2) =~= s.subrange(i, i + 2));
                assert(occurs_at(t, open_pair(), i));
            } else if i + 1 == t.len() {
                assert(t.last() == '{');
            } else {
                assert(r.subrange(i - t.len(), i - t.len() + 2) =~= s.subrange(i, i + 2));
                assert(occurs_at(r, open_pair(), i - t.len()));
            }
        }
    }
}

/// Every `{{` in `t` opens a placeholder of a key of `bs`.
pub open spec fn placeholders_only(t: Seq<char>, bs: Seq<(Seq<char>, Seq<char>)>) -> bool {
    forall|i: int|
        #[trigger] occurs_at(t, open_pair(), i) ==> exists|j: int|
            0 <= j < bs.len() && occurs_at(t, placeholder(bs[j].0), i)
}

/// A text in which every `{{` opens a placeholder of a plain key of `bs`
/// splits into well-formed pieces whose placeholders name keys of `bs`.
proof fn lemma_pieces(t: Seq<char>, bs: Seq<(Seq<char>, Seq<char>)>) -> (ps: Seq<Piece>)
    requires
        forall|j: int| 0 <= j < bs.len() ==> plain_key(#[trigger] bs[j].0),
        placeholders_only(t, bs),
    ensures
        render(ps) == t,
        well_formed_pieces(ps),
        forall|i: int|
            0 <= i < ps.len() && #[trigger] ps[i] is Hole ==> exists|j: int|
                0 <= j < bs.len() && bs[j].0 == ps[i]->Hole_0,
        forall|i: int| 0 <= i < ps.len() && #[trigger] ps[i] is Text ==> ps[i]->Text_0.len() > 0,
    decreases t.len(),
{
    if t.len() == 0 {
        let ps = Seq::<Piece>::empty();
        assert(render(ps) =~= t);
        ps
    } else {
        let m: int = if occurs_at(t, open_pair(), 0) {
            let j = choose|j: int| 0 <= j < bs.len() && occurs_at(t, placeholder(bs[j].0), 0);
            placeholder(bs[j].0).len() as int
        } else {
            1
        };
        let rest = t.skip(m);
        assert(placeholders_only(rest, bs)) by {
            assert forall|i: int| #[trigger] occurs_at(rest, open_pair(), i) implies exists|j: int|
                0 <= j < bs.len() && occurs_at(rest, placeholder(bs[j].0), i) by {
                lemma_occurs_at_skip(t, open_pair(), m, i);
                let j = choose|j: int|
                    0 <= j < bs.len() && occurs_at(t, placeholder(bs[j].0), i + m);
                lemma_occurs_at_skip(t, placeholder(bs[j].0), m, i);
            }
        }
        let qs = lemma_pieces(rest, bs);
        if occurs_at(t, open_pair(), 0) {
            let j = choose|j: int| 0 <= j < bs.len() && occurs_at(t, placeholder(bs[j].0), 0);
            let k = bs[j].0;
            assert(plain_key(k));
            let ps = seq![Piece::Hole(k)] + qs;
            assert(ps.drop_first() =~= qs);
            assert(t.subrange(0, m) == placeholder(k));
            assert(render(ps) =~= t);
            assert forall|i: int| 0 <= i < ps.len() implies piece_ok(
                #[trigger] ps[i],
                i == ps.len() - 1,
            ) by {
                if i > 0 {
                    assert(ps[i] == qs[i - 1]);
                }
            }
            assert forall|i: int| 0 <= i < ps.len() && #[trigger] ps[i] is Hole implies exists|
                j2: int,
            | 0 <= j2 < bs.len() && bs[j2].0 == ps[i]->Hole_0 by {
                if i > 0 {
                    assert(ps[i] == qs[i - 1]);
                }
            }
            assert forall|i: int| 0 <= i < ps.len() && #[trigger] ps[i] is Text implies ps[i]->Text_0.len()
                > 0 by {
                assert(ps[i] == qs[i - 1]);
            }
            ps
        } else {
            let c = t[0];
            assert(t =~= seq![c] + rest);
            if qs.len() > 0 && qs[0] is Text {
                let u = qs[0]->Text_0;
                let w = seq![c] + u;
                let ps = seq![Piece::Text(w)] + qs.drop_first();
                lemma_rest_well_formed(qs);
                assert(render(qs) == u + render(qs.drop_first()));
                assert(ps.drop_first() =~= qs.drop_first());
                assert(render(ps) =~= t);
                assert(!occurs(w, open_pair())) by {
                    if occurs(w, open_pair()) {
                        let i = choose|i: int| occurs_at(w, open_pair(), i);
                        assert(w.subrange(i, i + 2)[0] == w[i]);
                        assert(w.subrange(i, i + 2)[1] == w[i + 1]);
                        if i == 0 {
                            assert(t.subrange(0, 2) =~= open_pair());
                            assert(occurs_at(t, open_pair(), 0));
                        } else {
                            assert(u.subrange(i - 1, i + 1) =~= w.subrange(i, i + 2));
                            assert(occurs_at(u, open_pair(), i - 1));
                        }
                    }
                }
                assert(piece_ok(qs[0], 0 == qs.len() - 1));
                assert(u.len() > 0);
                assert forall|i: int| 0 <= i < ps.len() implies piece_ok(
                    #[trigger] ps[i],
                    i == ps.len() - 1,
                ) by {
                    if i > 0 {
                        assert(ps[i] == qs[i]);
                        assert(piece_ok(qs[i], i == qs.len() - 1));
                    } else if u.len() > 0 {
                        assert(w.last() == u.last());
                    }
                }
                assert forall|i: int| 0 <= i < ps.len() && #[trigger] ps[i] is Hole implies exists|
                    j2: int,
                | 0 <= j2 < bs.len() && bs[j2].0 == ps[i]->Hole_0 by {
                    assert(ps[i] == qs[i]);
                }
                assert forall|i: int| 0 <= i < ps.len() && #[trigger] ps[i] is Text implies ps[i]->Text_0.len()
                    > 0 by {
                    if i > 0 {
                        assert(ps[i] == qs[i]);
                    }
                }
                ps
            } else {
                let ps = seq![Piece::Text(seq![c])] + qs;
                assert(ps.drop_first() =~= qs);
                assert(render(ps) =~= t);
                if qs.len() > 0 {
                    let k = qs[0]->Hole_0;
                    lemma_placeholder_chars(k);
                    assert(render(qs) == placeholder(k) + render(qs.drop_first()));
                    assert(t[1] == rest[0]);
                    assert(rest[0] == '{');
                    if c == '{' {
                        assert(t.subrange(0, 2) =~= open_pair());
                        assert(occurs_at(t, open_pair(), 0));
                    }
                }
                assert(!occurs(seq![c], open_pair()));
                assert forall|i: int| 0 <= i < ps.len() implies piece_ok(
                    #[trigger] ps[i],
                    i == ps.len() - 1,
                ) by {
                    if i > 0 {
                        assert(ps[i] == qs[i - 1]);
                    }
                }
                assert forall|i: int| 0 <= i < ps.len() && #[trigger] ps[i] is Hole implies exists|
                    j2: int,
                | 0 <= j2 < bs.len() && bs[j2].0 == ps[i]->Hole_0 by {
                    if i > 0 {
                        assert(ps[i] == qs[i - 1]);
                    }
                }
                assert forall|i: int| 0 <= i < ps.len() && #[trigger] ps[i] is Text implies ps[i]->Text_0.len()
                    > 0 by {
                    if i > 0 {
                        assert(ps[i] == qs[i - 1]);
                    }
                }
                ps
            }
        }
    }
}

/// Reading a variables file and substituting its bindings into a text in
/// which every `{{` opens a placeholder of one of those bindings' keys leaves
/// no `{{` in the result, provided the keys hold no brace and the values no
/// `{`.
pub proof fn lemma_round_trip(content: Seq<char>, t: Seq<char>)
    requires
        plain_bindings(bindings_of(content)),
        placeholders_only(t, bindings_of(content)),
    ensures
        !occurs(apply_bindings(t, bindings_of(content)), open_pair()),
{
    let bs = bindings_of(content);
    assert(plain_bindings(bs));
    assert forall|j: int| 0 <= j < bs.len() implies plain_key(#[trigger] bs[j].0) by {
        assert(plain_key(bs[j].0) && !bs[j].1.contains('{'));
    }
    let ps = lemma_pieces(t, bs);
    lemma_apply_render(ps, bs);
    let f = fill_all(ps, bs);
    assert forall|i: int| 0 <= i < f.len() implies #[trigger] f[i] is Text by {
        if f[i] is Hole {
            assert(ps[i] is Hole);
            let j = choose|j: int| 0 <= j < bs.len() && bs[j].0 == ps[i]->Hole_0;
        }
    }
    lemma_render_literals(f);
}

} // verus!
