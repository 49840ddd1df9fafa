//! Finding the template of a page among the entries of a project directory.
use vstd::prelude::*;

use crate::error::TemplateError;
use crate::tag::{parse_tag, tag_of};

verus! {

/// `part` appended to the path `base`, with one `/` between them; an
/// absolute `part` replaces `base`.
pub open spec fn joined(base: Seq<char>, part: Seq<char>) -> Seq<char> {
    if part.len() == 0 {
        base
    } else if part[0] == '/' || base.len() == 0 {
        part
    } else if base.last() == '/' {
        base + part
    } else {
        base + seq!['/'] + part
    }
}

/// Appends `part` to the path `base`.
pub fn join_path(base: &str, part: &str) -> (r: String)
    ensures
        r@ == joined(base@, part@),
{
    let n = base.unicode_len();
    let mut r = String::from_str(base);
    if part.unicode_len() == 0 {
        return r;
    }
    if n == 0 || part.get_char(0) == '/' {
        return String::from_str(part);
    }
    if base.get_char(n - 1) != '/' {
        r.append("/");
        proof {
            reveal_strlit("/");
        }
    }
    r.append(part);
    r
}

/// A template file found for a page.
pub struct TemplateEntry {
    pub tag: String,
    pub display_name: String,
    pub path: String,
}

impl View for TemplateEntry {
    type V = (Seq<char>, Seq<char>, Seq<char>);

    open spec fn view(&self) -> (Seq<char>, Seq<char>, Seq<char>) {
        (self.tag@, self.display_name@, self.path@)
    }
}

/// The models of a list of entries, in order.
pub open spec fn entry_models(v: Seq<TemplateEntry>) -> Seq<(Seq<char>, Seq<char>, Seq<char>)> {
    v.map_values(|e: TemplateEntry| e@)
}

/// The models of a list of strings, in order.
pub open spec fn string_models(v: Seq<String>) -> Seq<Seq<char>> {
    v.map_values(|s: String| s@)
}

/// The file named `name` serves `page`: its tag is exactly `page`.
pub open spec fn matches_page(name: Seq<char>, page: Seq<char>) -> bool {
    tag_of(name) is Some && tag_of(name)->Some_0.0 == page
}

/// The entry for the tagged file `name` of directory `dir`.
pub open spec fn entry_model(dir: Seq<char>, name: Seq<char>) -> (Seq<char>, Seq<char>, Seq<char>) {
    (tag_of(name)->Some_0.0, tag_of(name)->Some_0.1, joined(dir, name))
}

/// Entries for every name of `names` that serves `page`, in listing order.
pub open spec fn all_matches(dir: Seq<char>, names: Seq<Seq<char>>, page: Seq<char>) -> Seq<
    (Seq<char>, Seq<char>, Seq<char>),
>
    decreases names.len(),
{
    if names.len() == 0 {
        Seq::empty()
    } else {
        let prev = all_matches(dir, names.drop_last(), page);
        if matches_page(names.last(), page) {
            prev.push(entry_model(dir, names.last()))
        } else {
            prev
        }
    }
}

/// The matches of each page in turn.
pub open spec fn batch_found(dir: Seq<char>, names: Seq<Seq<char>>, pages: Seq<Seq<char>>) -> Seq<
    (Seq<char>, Seq<char>, Seq<char>),
>
    decreases pages.len(),
{
    if pages.len() == 0 {
        Seq::empty()
    } else {
        batch_found(dir, names, pages.drop_last()) + all_matches(dir, names, pages.last())
    }
}

/// The pages that no name serves, in request order.
pub open spec fn batch_missing(dir: Seq<char>, names: Seq<Seq<char>>, pages: Seq<Seq<char>>) -> Seq<
    Seq<char>,
>
    decreases pages.len(),
{
    if pages.len() == 0 {
        Seq::empty()
    } else {
        let prev = batch_missing(dir, names, pages.drop_last());
        if all_matches(dir, names, pages.last()).len() == 0 {
            prev.push(pages.last())
        } else {
            prev
        }
    }
}

/// The entry for `name` in `directory` if it serves `page`.
fn entry_for_page(directory: &str, name: &String, page: &String) -> (r: Option<TemplateEntry>)
    ensures
        match r {
            Some(e) => matches_page(name@, page@) && e@ == entry_model(directory@, name@),
            None => !matches_page(name@, page@),
        },
{
    match parse_tag(name.as_str()) {
        Ok(parts) => {
            if parts.tag == *page {
                let path = join_path(directory, name.as_str());
                Some(TemplateEntry { tag: parts.tag, display_name: parts.display_name, path })
            } else {
                None
            }
        },
        Err(_) => None,
    }
}

/// Finds the template of `page` among `names`, the entries of `directory` in
/// listing order: the first whose tag is exactly `page`. Names without a tag
/// are skipped. None when no entry serves `page`.
pub fn find_template(directory: &str, names: &Vec<String>, page: &str) -> (r: Option<
    TemplateEntry,
>)
    ensures
        match r {
            None => forall|i: int|
                0 <= i < names@.len() ==> !matches_page(#[trigger] names@[i]@, page@),
            Some(e) => exists|i: int|
                0 <= i < names@.len() && matches_page(#[trigger] names@[i]@, page@) && (forall|
                    j: int,
                | 0 <= j < i ==> !matches_page(names@[j]@, page@)) && e@ == entry_model(
                    directory@,
                    names@[i]@,
                ),
        },
        r is Some ==> r->Some_0.tag@ == page@,
{
    let wanted = String::from_str(page);
    let mut i: usize = 0;
    while i < names.len()
        invariant
            i <= names@.len(),
            wanted@ == page@,
            forall|j: int| 0 <= j < i ==> !matches_page(#[trigger] names@[j]@, page@),
        decreases names.len() - i,
    {
        match entry_for_page(directory, &names[i], &wanted) {
            Some(e) => {
                assert(matches_page(names@[i as int]@, page@));
                return Some(e);
            },
            None => {},
        }
        i = i + 1;
    }
    None
}

/// Every entry of `directory` that serves `page`, in listing order.
fn find_all(directory: &str, names: &Vec<String>, page: &String) -> (r: Vec<TemplateEntry>)
    ensures
        entry_models(r@) == all_matches(directory@, string_models(names@), page@),
{
    let ghost ns = string_models(names@);
    let mut out: Vec<TemplateEntry> = Vec::new();
    let mut i: usize = 0;
    while i < names.len()
        invariant
            i <= names@.len(),
            ns == string_models(names@),
            entry_models(out@) == all_matches(directory@, ns.take(i as int), page@),
        decreases names.len() - i,
    {
        proof {
            assert(ns.take(i + 1).drop_last() =~= ns.take(i as int));
            assert(ns.take(i + 1).last() == names@[i as int]@);
        }
        match entry_for_page(directory, &names[i], page) {
            Some(e) => {
                out.push(e);
            },
            None => {},
        }
        assert(entry_models(out@) =~= all_matches(directory@, ns.take(i + 1), page@));
        i = i + 1;
    }
    assert(ns.take(i as int) =~= ns);
    out
}

/// What a batch lookup found: the matching entries of all pages, and the
/// pages that nothing matched.
pub struct BatchMatch {
    pub found: Vec<TemplateEntry>,
    pub missing: Vec<String>,
}

/// Looks up several pages at once. Every entry that serves a page is found,
/// page by page; pages without any entry are reported as missing, which is no
/// error. An empty page list is refused.
pub fn find_templates(directory: &str, names: &Vec<String>, pages: &Vec<String>) -> (r: Result<
    BatchMatch,
    TemplateError,
>)
    ensures
        pages@.len() == 0 <==> r is Err,
        r is Err ==> r->Err_0 is NoPagesRequested,
        r is Ok ==> entry_models(r->Ok_0.found@) == batch_found(
            directory@,
            string_models(names@),
            string_models(pages@),
        ) && string_models(r->Ok_0.missing@) == batch_missing(
            directory@,
            string_models(names@),
            string_models(pages@),
        ),
{
    if pages.len() == 0 {
        return Err(TemplateError::NoPagesRequested);
    }
    let ghost ns = string_models(names@);
    let ghost ps = string_models(pages@);
    let mut found: Vec<TemplateEntry> = Vec::new();
    let mut missing: Vec<String> = Vec::new();
    let mut k: usize = 0;
    while k < pages.len()
        invariant
            k <= pages@.len(),
            ns == string_models(names@),
            ps == string_models(pages@),
            entry_models(found@) == batch_found(directory@, ns, ps.take(k as int)),
            string_models(missing@) == batch_missing(directory@, ns, ps.take(k as int)),
        decreases pages.len() - k,
    {
        proof {
            assert(ps.take(k + 1).drop_last() =~= ps.take(k as int));
            assert(ps.take(k + 1).last() == pages@[k as int]@);
        }
        let mut matches = find_all(directory, names, &pages[k]);
        if matches.len() == 0 {
            missing.push(pages[k].clone());
        }
        let ghost before = found@;
        found.append(&mut matches);
        assert(entry_models(found@) =~= batch_found(directory@, ns, ps.take(k + 1)));
        assert(string_models(missing@) =~= batch_missing(directory@, ns, ps.take(k + 1)));
        k = k + 1;
    }
    assert(ps.take(k as int) =~= ps);
    Ok(BatchMatch { found, missing })
}

} // verus!
