//! The report of the templates tree: the entries of the root, and one level
//! into each directory, with the bindings of each `var` file.
use vstd::prelude::*;

use crate::bindings::{binding_models, bindings_of, list_bindings, VariableBinding};
use crate::error::TemplateError;

verus! {

/// An entry inside a directory of the root, as listed by the caller; for a
/// variables file, what it read from it.
pub struct ChildListing {
    pub name: String,
    pub content: Option<String>,
}

/// An entry of the templates root, as listed by the caller, with the entries
/// of a directory.
pub struct DirListing {
    pub name: String,
    pub is_dir: bool,
    pub children: Vec<ChildListing>,
}

/// An entry of the report inside a directory; a variables file carries its
/// bindings.
pub struct TreeChild {
    pub name: String,
    pub variables: Option<Vec<VariableBinding>>,
}

/// An entry of the report at the root.
pub struct TreeEntry {
    pub name: String,
    pub children: Vec<TreeChild>,
}

/// The templates tree, for display.
pub struct TreeReport {
    pub entries: Vec<TreeEntry>,
}

/// The name reserved for a project's variables file.
pub open spec fn is_variables_name(name: Seq<char>) -> bool {
    name == "var"@
}

/// Whether `name` is the reserved name of a variables file.
pub fn is_variables_file(name: &str) -> (r: bool)
    ensures
        r == is_variables_name(name@),
{
    proof {
        reveal_strlit("var");
    }
    if name.unicode_len() != 3 {
        return false;
    }
    let r = name.get_char(0) == 'v' && name.get_char(1) == 'a' && name.get_char(2) == 'r';
    if r {
        assert(name@ =~= "var"@);
    }
    r
}

/// The model of a report entry inside a directory.
pub open spec fn tree_child_model(c: TreeChild) -> (Seq<char>, Option<
    Seq<(Seq<char>, Seq<char>)>,
>) {
    (
        c.name@,
        match c.variables {
            Some(v) => Some(binding_models(v@)),
            None => None,
        },
    )
}

/// What the report shows for a listed entry inside a directory.
pub open spec fn expected_child(c: ChildListing) -> (Seq<char>, Option<
    Seq<(Seq<char>, Seq<char>)>,
>) {
    (
        c.name@,
        if is_variables_name(c.name@) {
            Some(bindings_of(c.content->Some_0@))
        } else {
            None
        },
    )
}

/// A listed entry inside a directory can be reported: a variables file must
/// have been read.
pub open spec fn child_readable(c: ChildListing) -> bool {
    is_variables_name(c.name@) ==> c.content is Some
}

/// Every entry inside a directory of the root can be reported.
pub open spec fn listing_readable(listing: Seq<DirListing>) -> bool {
    forall|i: int, j: int|
        0 <= i < listing.len() && listing[i].is_dir && 0 <= j < listing[i].children@.len()
            ==> child_readable(#[trigger] listing[i].children@[j])
}

fn report_child(c: &ChildListing) -> (r: Result<TreeChild, TemplateError>)
    ensures
        r is Ok <==> child_readable(*c),
        r is Ok ==> tree_child_model(r->Ok_0) == expected_child(*c),
        r is Err ==> r->Err_0 is FileNotFound && r->Err_0->FileNotFound_0@ == c.name@,
{
    let name = c.name.clone();
    if is_variables_file(c.name.as_str()) {
        match &c.content {
            Some(text) => {
                let vars = list_bindings(text.as_str());
                Ok(TreeChild { name, variables: Some(vars) })
            },
            None => Err(TemplateError::FileNotFound(name)),
        }
    } else {
        Ok(TreeChild { name, variables: None })
    }
}

/// Builds the report of the templates root from its listing: each root entry
/// in order, with the entries of a directory in order and, for a variables
/// file, its bindings. Fails on a variables file that could not be read.
pub fn list_templates(listing: &Vec<DirListing>) -> (r: Result<TreeReport, TemplateError>)
    ensures
        r is Ok <==> listing_readable(listing@),
        r is Err ==> r->Err_0 is FileNotFound,
        r is Ok ==> {
            let rep = r->Ok_0;
            &&& rep.entries@.len() == listing@.len()
            &&& forall|i: int|
                0 <= i < listing@.len() ==> {
                    let e = #[trigger] rep.entries@[i];
                    let d = listing@[i];
                    &&& e.name@ == d.name@
                    &&& e.children@.len() == if d.is_dir {
                        d.children@.len()
                    } else {
                        0
                    }
                    &&& d.is_dir ==> forall|j: int|
                        0 <= j < d.children@.len() ==> tree_child_model(
                            #[trigger] e.children@[j],
                        ) == expected_child(d.children@[j])
                }
        },
{
    let mut entries: Vec<TreeEntry> = Vec::new();
    let mut i: usize = 0;
    while i < listing.len()
        invariant
            i <= listing@.len(),
            entries@.len() == i,
            forall|a: int, b: int|
                0 <= a < i && listing@[a].is_dir && 0 <= b < listing@[a].children@.len()
                    ==> child_readable(#[trigger] listing@[a].children@[b]),
            forall|a: int|
                0 <= a < i ==> {
                    let e = #[trigger] entries@[a];
                    let d = listing@[a];
                    &&& e.name@ == d.name@
                    &&& e.children@.len() == if d.is_dir {
                        d.children@.len()
                    } else {
                        0
                    }
                    &&& d.is_dir ==> forall|b: int|
                        0 <= b < d.children@.len() ==> tree_child_model(
                            #[trigger] e.children@[b],
                        ) == expected_child(d.children@[b])
                },
        decreases listing.len() - i,
    {
        let d = &listing[i];
        let mut children: Vec<TreeChild> = Vec::new();
        if d.is_dir {
            let mut j: usize = 0;
            while j < d.children.len()
                invariant
                    i < listing@.len(),
                    d == listing@[i as int],
                    d.is_dir,
                    j <= d.children@.len(),
                    children@.len() == j,
                    forall|b: int| 0 <= b < j ==> child_readable(#[trigger] d.children@[b]),
                    forall|b: int|
                        0 <= b < j ==> tree_child_model(#[trigger] children@[b]) == expected_child(
                            d.children@[b],
                        ),
                decreases d.children.len() - j,
            {
                match report_child(&d.children[j]) {
                    Ok(c) => {
                        children.push(c);
                    },
                    Err(e) => {
                        assert(!listing_readable(listing@)) by {
                            assert(!child_readable(listing@[i as int].children@[j as int]));
                        }
                        return Err(e);
                    },
                }
                j = j + 1;
            }
        }
        entries.push(TreeEntry { name: d.name.clone(), children });
        i = i + 1;
    }
    Ok(TreeReport { entries })
}

} // verus!
