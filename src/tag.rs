//! Page tags: a template file is named `[<tag>]<display name>`.
use vstd::prelude::*;

use crate::error::TemplateError;
use crate::text::{char_vec, find_and_count, first_pos, is_first, lemma_first_pos};

verus! {

/// A file name split into its page tag and the name shown for it.
pub struct TagParts {
    pub tag: String,
    pub display_name: String,
}

/// Tag and display name of `name`: the text strictly between the first `[` and
/// the first `]`, and the text after that `]`. None when either bracket is
/// missing or the first `]` comes before the first `[`.
pub open spec fn tag_of(name: Seq<char>) -> Option<(Seq<char>, Seq<char>)> {
    let a = first_pos(name, '[');
    let b = first_pos(name, ']');
    if a < 0 || b < 0 || b < a {
        None
    } else {
        Some((name.subrange(a + 1, b), name.subrange(b + 1, name.len() as int)))
    }
}

/// The name `[t]d`.
pub open spec fn tagged_name(t: Seq<char>, d: Seq<char>) -> Seq<char> {
    seq!['['] + t + seq![']'] + d
}

/// Splits `name` into tag and display name.
pub fn parse_tag(name: &str) -> (r: Result<TagParts, TemplateError>)
    ensures
        match r {
            Ok(p) => tag_of(name@) == Some((p.tag@, p.display_name@)),
            Err(e) => tag_of(name@) is None && e is MalformedTemplateName
                && e->MalformedTemplateName_0@ == name@,
        },
{
    let chars = char_vec(name);
    let n = chars.len();
    proof {
        assert(chars@.subrange(0, n as int) =~= name@);
    }
    let (open, _) = find_and_count(&chars, 0, n, '[');
    let (close, _) = find_and_count(&chars, 0, n, ']');
    match (open, close) {
        (Some(a), Some(b)) => {
            proof {
                lemma_first_pos(name@, '[', a as int);
                lemma_first_pos(name@, ']', b as int);
            }
            if b < a {
                Err(TemplateError::MalformedTemplateName(String::from_str(name)))
            } else {
                let tag = String::from_str(name.substring_char(a + 1, b));
                let display_name = String::from_str(name.substring_char(b + 1, n));
                Ok(TagParts { tag, display_name })
            }
        },
        _ => Err(TemplateError::MalformedTemplateName(String::from_str(name))),
    }
}

/// A name built as `[t]d`, where `t` holds no `]`, parses back to `t` and `d`.
pub proof fn lemma_parse_tagged_name(t: Seq<char>, d: Seq<char>)
    requires
        !t.contains(']'),
    ensures
        tag_of(tagged_name(t, d)) == Some((t, d)),
{
    let f = tagged_name(t, d);
    let b: int = t.len() as int + 1;
    assert(f[0] == '[');
    assert(f[b] == ']');
    assert forall|j: int| 0 <= j < b implies f[j] != ']' by {
        if j > 0 {
            assert(f[j] == t[j - 1]);
        }
    }
    lemma_first_pos(f, '[', 0);
    lemma_first_pos(f, ']', b);
    assert(f.subrange(1, b) =~= t);
    assert(f.subrange(b + 1, f.len() as int) =~= d);
}

/// A name with no `[`, or with no `]`, has no tag.
pub proof fn lemma_unbracketed_name_has_no_tag(f: Seq<char>)
    requires
        !f.contains('[') || !f.contains(']'),
    ensures
        tag_of(f) is None,
{
    if !f.contains('[') {
        assert forall|j: int| 0 <= j < f.len() implies f[j] != '[' by {
            if f[j] == '[' {
                assert(f.contains('['));
            }
        }
        assert(!exists|i: int| is_first(f, '[', i));
    } else {
        assert forall|j: int| 0 <= j < f.len() implies f[j] != ']' by {
            if f[j] == ']' {
                assert(f.contains(']'));
            }
        }
        assert(!exists|i: int| is_first(f, ']', i));
    }
}

} // verus!
