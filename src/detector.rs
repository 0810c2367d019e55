//! Which framework styles a project uses, read from its `use` declarations.
use vstd::prelude::*;
use crate::cli::Framework;
use crate::parser::ParsedFile;
use crate::syntax::{Item, UseTree};
use crate::strings::str_eq;

verus! {

pub struct FrameworkDetector;

/// The detected frameworks, each listed once, in order of first import.
pub struct DetectionResult {
    pub frameworks: Vec<Framework>,
}

/// The framework that an imported identifier names.
pub open spec fn framework_named(ident: Seq<char>) -> Set<Framework> {
    if ident == "axum"@ {
        set![Framework::Axum]
    } else if ident == "actix_web"@ {
        set![Framework::ActixWeb]
    } else {
        Set::empty()
    }
}

/// The frameworks that a use tree imports from: the root segment of each
/// imported path counts, through groups and renames; a glob says nothing.
pub open spec fn frameworks_in_tree(t: UseTree) -> Set<Framework>
    decreases t,
{
    match t {
        UseTree::Path { ident, tree } => framework_named(ident@),
        UseTree::Name(ident) => framework_named(ident@),
        UseTree::Rename { ident, rename } => framework_named(ident@),
        UseTree::Glob => Set::empty(),
        UseTree::Group(items) => frameworks_in_trees(items@),
    }
}

pub open spec fn frameworks_in_trees(ts: Seq<UseTree>) -> Set<Framework>
    decreases ts,
{
    if ts.len() == 0 {
        Set::empty()
    } else {
        frameworks_in_trees(ts.drop_last()).union(frameworks_in_tree(ts.last()))
    }
}

/// The frameworks that the top-level `use` declarations of `items` import from.
pub open spec fn frameworks_in_items(items: Seq<Item>) -> Set<Framework>
    decreases items.len(),
{
    if items.len() == 0 {
        Set::empty()
    } else {
        let rest = frameworks_in_items(items.drop_last());
        match items.last() {
            Item::Use(t) => rest.union(frameworks_in_tree(t)),
            _ => rest,
        }
    }
}

pub open spec fn frameworks_in_files(files: Seq<ParsedFile>) -> Set<Framework>
    decreases files.len(),
{
    if files.len() == 0 {
        Set::empty()
    } else {
        frameworks_in_files(files.drop_last()).union(frameworks_in_items(files.last().syntax_tree.items@))
    }
}

fn add_framework(found: &mut Vec<Framework>, f: Framework)
    requires
        old(found)@.no_duplicates(),
    ensures
        final(found)@.no_duplicates(),
        final(found)@.to_set() == old(found)@.to_set().insert(f),
{
    let mut i: usize = 0;
    while i < found.len()
        invariant
            i <= found.len(),
            found@ == old(found)@,
            found@.no_duplicates(),
            forall|j: int| 0 <= j < i ==> found@[j] != f,
        decreases found.len() - i,
    {
        if found[i] == f {
            proof {
                assert(found@.to_set().contains(f));
                assert(found@.to_set().insert(f) =~= found@.to_set());
            }
            return;
        }
        i = i + 1;
    }
    let ghost before = found@;
    found.push(f);
    proof {
        assert(found@.to_set() =~= before.to_set().insert(f)) by {
            assert forall|x: Framework| found@.to_set().contains(x) <==> before.to_set().insert(f).contains(x) by {
                if x != f && found@.contains(x) {
                    let j = choose|j: int| 0 <= j < found@.len() && found@[j] == x;
                    assert(before[j] == x);
                }
                if before.contains(x) {
                    let j = choose|j: int| 0 <= j < before.len() && before[j] == x;
                    assert(found@[j] == x);
                }
                if x == f {
                    assert(found@[before.len() as int] == f);
                }
            }
        }
    }
}

fn note_ident(ident: &String, found: &mut Vec<Framework>)
    requires
        old(found)@.no_duplicates(),
    ensures
        final(found)@.no_duplicates(),
        final(found)@.to_set() == old(found)@.to_set().union(framework_named(ident@)),
{
    if str_eq(ident.as_str(), "axum") {
        add_framework(found, Framework::Axum);
        proof {
            assert(old(found)@.to_set().insert(Framework::Axum) =~= old(found)@.to_set().union(set![Framework::Axum]));
        }
    } else if str_eq(ident.as_str(), "actix_web") {
        add_framework(found, Framework::ActixWeb);
        proof {
            assert(old(found)@.to_set().insert(Framework::ActixWeb) =~= old(found)@.to_set().union(set![Framework::ActixWeb]));
        }
    } else {
        proof {
            assert(found@.to_set().union(Set::empty()) =~= found@.to_set());
        }
    }
}

fn check_use_tree(tree: &UseTree, found: &mut Vec<Framework>)
    requires
        old(found)@.no_duplicates(),
    ensures
        final(found)@.no_duplicates(),
        final(found)@.to_set() == old(found)@.to_set().union(frameworks_in_tree(*tree)),
    decreases tree,
{
    match tree {
        UseTree::Path { ident, tree: rest } => {
            note_ident(ident, found);
        },
        UseTree::Name(ident) => {
            note_ident(ident, found);
        },
        UseTree::Rename { ident, rename } => {
            note_ident(ident, found);
        },
        UseTree::Glob => {
            proof {
                assert(found@.to_set().union(Set::empty()) =~= found@.to_set());
            }
        },
        UseTree::Group(items) => {
            let mut i: usize = 0;
            proof {
                assert(items@.subrange(0, 0) =~= Seq::<UseTree>::empty());
                assert(found@.to_set().union(Set::empty()) =~= found@.to_set());
            }
            while i < items.len()
                invariant
                    i <= items.len(),
                    *tree == UseTree::Group(*items),
                    found@.no_duplicates(),
                    found@.to_set() == old(found)@.to_set().union(frameworks_in_trees(items@.subrange(0, i as int))),
                decreases items.len() - i,
            {
                proof {
                    let sub = items@.subrange(0, i + 1);
                    assert(sub.drop_last() == items@.subrange(0, i as int));
                    assert(sub.last() == items@[i as int]);
                    assert(decreases_to!(*tree => tree->Group_0));
                    assert(decreases_to!(tree->Group_0 => tree->Group_0@));
                    assert(decreases_to!(tree->Group_0@ => tree->Group_0@[i as int]));
                }
                let ghost s0 = found@.to_set();
                check_use_tree(&items[i], found);
                proof {
                    let a = old(found)@.to_set();
                    let b = frameworks_in_trees(items@.subrange(0, i as int));
                    let c = frameworks_in_tree(items@[i as int]);
                    assert(a.union(b).union(c) =~= a.union(b.union(c)));
                }
                i = i + 1;
            }
            proof {
                assert(items@.subrange(0, i as int) == items@);
            }
        },
    }
}

impl FrameworkDetector {
    /// The frameworks that the files import from, each once.
    pub fn detect(parsed_files: &[ParsedFile]) -> (r: DetectionResult)
        ensures
            r.frameworks@.no_duplicates(),
            r.frameworks@.to_set() == frameworks_in_files(parsed_files@),
    {
        let mut found: Vec<Framework> = Vec::new();
        let mut k: usize = 0;
        proof {
            assert(found@.to_set() =~= Set::<Framework>::empty());
            assert(parsed_files@.subrange(0, 0) =~= Seq::<ParsedFile>::empty());
        }
        while k < parsed_files.len()
            invariant
                k <= parsed_files.len(),
                found@.no_duplicates(),
                found@.to_set() == frameworks_in_files(parsed_files@.subrange(0, k as int)),
            decreases parsed_files.len() - k,
        {
            let items = &parsed_files[k].syntax_tree.items;
            let ghost sk = found@.to_set();
            let mut i: usize = 0;
            proof {
                assert(items@.subrange(0, 0) =~= Seq::<Item>::empty());
                assert(sk.union(Set::empty()) =~= sk);
            }
            while i < items.len()
                invariant
                    i <= items.len(),
                    found@.no_duplicates(),
                    found@.to_set() == sk.union(frameworks_in_items(items@.subrange(0, i as int))),
                decreases items.len() - i,
            {
                proof {
                    let sub = items@.subrange(0, i + 1);
                    assert(sub.drop_last() == items@.subrange(0, i as int));
                    assert(sub.last() == items@[i as int]);
                }
                match &items[i] {
                    Item::Use(t) => {
                        check_use_tree(t, &mut found);
                        proof {
                            let b = frameworks_in_items(items@.subrange(0, i as int));
                            assert(sk.union(b).union(frameworks_in_tree(*t)) =~= sk.union(b.union(frameworks_in_tree(*t))));
                        }
                    },
                    _ => {},
                }
                i = i + 1;
            }
            proof {
                assert(items@.subrange(0, i as int) == items@);
                let sub = parsed_files@.subrange(0, k + 1);
                assert(sub.drop_last() == parsed_files@.subrange(0, k as int));
                assert(sub.last() == parsed_files@[k as int]);
            }
            k = k + 1;
        }
        proof {
            assert(parsed_files@.subrange(0, k as int) == parsed_files@);
        }
        DetectionResult { frameworks: found }
    }
}

} // verus!
