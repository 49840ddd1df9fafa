//! The variables file: one `KEY = VALUE` binding per line.
use vstd::prelude::*;

use crate::text::{
    char_vec, count_char, find_and_count, first_pos, lemma_first_pos, trim, trim_range,
};

verus! {

/// A `key = value` pair of the variables file, both sides trimmed.
pub struct VariableBinding {
    pub key: String,
    pub value: String,
}

impl View for VariableBinding {
    type V = (Seq<char>, Seq<char>);

    open spec fn view(&self) -> (Seq<char>, Seq<char>) {
        (self.key@, self.value@)
    }
}

/// The models of a list of bindings, in order.
pub open spec fn binding_models(v: Seq<VariableBinding>) -> Seq<(Seq<char>, Seq<char>)> {
    v.map_values(|b: VariableBinding| b@)
}

/// `s` cut at every `\n`; a trailing `\n` leaves an empty last line.
pub open spec fn split_lines(s: Seq<char>) -> Seq<Seq<char>>
    decreases s.len(),
{
    if s.len() == 0 {
        seq![Seq::empty()]
    } else {
        let prev = split_lines(s.drop_last());
        if s.last() == '\n' {
            prev.push(Seq::empty())
        } else {
            prev.update(prev.len() - 1, prev.last().push(s.last()))
        }
    }
}

/// A line is a binding iff it holds exactly one `=`.
pub open spec fn is_binding_line(line: Seq<char>) -> bool {
    count_char(line, '=') == 1
}

/// Key and value of a binding line: the trimmed text around its `=`.
pub open spec fn binding_of(line: Seq<char>) -> (Seq<char>, Seq<char>) {
    let p = first_pos(line, '=');
    (trim(line.take(p)), trim(line.skip(p + 1)))
}

/// The bindings of a list of lines, in order, other lines skipped.
pub open spec fn bindings_of_lines(lines: Seq<Seq<char>>) -> Seq<(Seq<char>, Seq<char>)>
    decreases lines.len(),
{
    if lines.len() == 0 {
        Seq::empty()
    } else {
        let prev = bindings_of_lines(lines.drop_last());
        if is_binding_line(lines.last()) {
            prev.push(binding_of(lines.last()))
        } else {
            prev
        }
    }
}

/// The bindings that a variables file holds.
pub open spec fn bindings_of(content: Seq<char>) -> Seq<(Seq<char>, Seq<char>)> {
    bindings_of_lines(split_lines(content))
}

/// The binding on the line `chars[lo..hi]`, if it is one.
fn line_binding(content: &str, chars: &Vec<char>, lo: usize, hi: usize) -> (r: Option<
    VariableBinding,
>)
    requires
        chars@ == content@,
        lo <= hi <= chars@.len(),
    ensures
        match r {
            Some(b) => is_binding_line(chars@.subrange(lo as int, hi as int)) && b@ == binding_of(
                chars@.subrange(lo as int, hi as int),
            ),
            None => !is_binding_line(chars@.subrange(lo as int, hi as int)),
        },
{
    let ghost line = chars@.subrange(lo as int, hi as int);
    let (first, count) = find_and_count(chars, lo, hi, '=');
    if count != 1 {
        return None;
    }
    let p = match first {
        Some(p) => p,
        None => { return None; },
    };
    let (ka, kb) = trim_range(chars, lo, lo + p);
    let (va, vb) = trim_range(chars, lo + p + 1, hi);
    proof {
        lemma_first_pos(line, '=', p as int);
        assert(line.take(p as int) =~= chars@.subrange(lo as int, lo + p));
        assert(line.skip(p + 1) =~= chars@.subrange(lo + p + 1, hi as int));
    }
    let key = String::from_str(content.substring_char(ka, kb));
    let value = String::from_str(content.substring_char(va, vb));
    Some(VariableBinding { key, value })
}

/// Reads the bindings of a variables file. Lines are cut at `\n`; a line with
/// exactly one `=` gives a binding of its trimmed left and right sides, any
/// other line is skipped.
pub fn parse_bindings(content: &str) -> (r: Vec<VariableBinding>)
    ensures
        binding_models(r@) == bindings_of(content@),
{
    let chars = char_vec(content);
    let n = chars.len();
    let ghost s = content@;
    let ghost mut done: Seq<Seq<char>> = Seq::empty();
    let mut out: Vec<VariableBinding> = Vec::new();
    let mut start: usize = 0;
    let mut i: usize = 0;
    proof {
        assert(s.take(0) =~= Seq::<char>::empty());
        assert(done.push(s.subrange(0, 0)) =~= seq![Seq::<char>::empty()]);
    }
    while i < n
        invariant
            chars@ == s,
            s == content@,
            n == s.len(),
            start <= i <= n,
            split_lines(s.take(i as int)) == done.push(s.subrange(start as int, i as int)),
            binding_models(out@) == bindings_of_lines(done),
        decreases n - i,
    {
        assert(s.take(i + 1).drop_last() =~= s.take(i as int));
        assert(s.take(i + 1).last() == s[i as int]);
        if chars[i] == '\n' {
            let b = line_binding(content, &chars, start, i);
            proof {
                let line = s.subrange(start as int, i as int);
                let nd = done.push(line);
                assert(nd.drop_last() =~= done);
                assert(nd.last() == line);
            }
            match b {
                Some(b) => {
                    out.push(b);
                },
                None => {},
            }
            proof {
                let line = s.subrange(start as int, i as int);
                assert(binding_models(out@) =~= bindings_of_lines(done.push(line)));
                done = done.push(line);
                assert(s.subrange(i + 1, i + 1) =~= Seq::<char>::empty());
                assert(split_lines(s.take(i + 1)) =~= done.push(s.subrange(i + 1, i + 1)));
            }
            start = i + 1;
        } else {
            proof {
                assert(s.subrange(start as int, i + 1) =~= s.subrange(start as int, i as int).push(
                    s[i as int],
                ));
                assert(split_lines(s.take(i + 1)) =~= done.push(s.subrange(start as int, i + 1)));
            }
        }
        i = i + 1;
    }
    let b = line_binding(content, &chars, start, n);
    proof {
        let line = s.subrange(start as int, n as int);
        let nd = done.push(line);
        assert(nd.drop_last() =~= done);
        assert(s.take(n as int) =~= s);
    }
    match b {
        Some(b) => {
            out.push(b);
        },
        None => {},
    }
    proof {
        let line = s.subrange(start as int, n as int);
        assert(binding_models(out@) =~= bindings_of_lines(done.push(line)));
    }
    out
}

/// The bindings of a variables file, for display: the same reading as
/// `parse_bindings`.
pub fn list_bindings(content: &str) -> (r: Vec<VariableBinding>)
    ensures
        binding_models(r@) == bindings_of(content@),
{
    parse_bindings(content)
}

} // verus!
