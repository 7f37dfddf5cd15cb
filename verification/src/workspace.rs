//! The workspace scan: which actions are complete in which directories.
//!
//! Reading the directories off the disk is the caller's work; this module
//! holds the decision over what was read: an action is complete in a
//! directory exactly when all of its product files are present there.

use vstd::prelude::*;
use crate::workflow::{spec_action_name, strs_model, Action, ActionModel};

verus! {

/// Whether every product is among a directory's files.
pub open spec fn spec_products_present(products: Seq<Seq<char>>, files: Seq<Seq<char>>) -> bool {
    forall|p: int| 0 <= p < products.len() ==> files.contains(#[trigger] products[p])
}

/// The products of an action model: the empty list when unset.
pub open spec fn spec_action_products(a: ActionModel) -> Seq<Seq<char>> {
    match a.products {
        Some(p) => p,
        None => Seq::empty(),
    }
}

/// The directories whose listings hold all the given products, in order.
pub open spec fn spec_complete_dirs(
    listings: Seq<(Seq<char>, Seq<Seq<char>>)>,
    products: Seq<Seq<char>>,
) -> Seq<Seq<char>>
    decreases listings.len(),
{
    if listings.len() == 0 {
        Seq::empty()
    } else {
        let rest = spec_complete_dirs(listings.drop_first(), products);
        if spec_products_present(products, listings[0].1) {
            seq![listings[0].0] + rest
        } else {
            rest
        }
    }
}

/// One completion entry per action that declares products and has at least
/// one complete directory, in action order.
pub open spec fn spec_find_completed(
    actions: Seq<ActionModel>,
    listings: Seq<(Seq<char>, Seq<Seq<char>>)>,
) -> Seq<(Seq<char>, Seq<Seq<char>>)>
    decreases actions.len(),
{
    if actions.len() == 0 {
        Seq::empty()
    } else {
        let rest = spec_find_completed(actions.drop_first(), listings);
        let products = spec_action_products(actions[0]);
        let dirs = spec_complete_dirs(listings, products);
        if products.len() > 0 && dirs.len() > 0 {
            seq![(spec_action_name(actions[0]), dirs)] + rest
        } else {
            rest
        }
    }
}

/// The model of a directory listing table.
pub open spec fn listings_model(s: Seq<(String, Vec<String>)>) -> Seq<(Seq<char>, Seq<Seq<char>>)> {
    s.map_values(|p: (String, Vec<String>)| (p.0@, strs_model(p.1@)))
}

/// Find the directories that have completed actions.
///
/// Given each directory's file listing, reports, for every action that
/// declares products and is complete somewhere, the directories where all
/// of its products are present - a completion pack ready to merge into the
/// completed cache.
#[verifier::loop_isolation(false)]
#[verifier::rlimit(100)]
pub fn find_completed_directories(actions: &Vec<Action>, listings: &Vec<(String, Vec<String>)>)
    -> (r: Vec<(String, Vec<String>)>)
    ensures
        crate::state::completed_m(r@) == spec_find_completed(
            crate::workflow::actions_model(actions@),
            listings_model(listings@),
        ),
{
    let ghost am = crate::workflow::actions_model(actions@);
    let ghost lm = listings_model(listings@);
    let mut out: Vec<(String, Vec<String>)> = Vec::new();
    let mut i: usize = 0;
    proof {
        assert(am.skip(0) =~= am);
    }
    while i < actions.len()
        invariant
            i <= actions@.len(),
            am == crate::workflow::actions_model(actions@),
            am.len() == actions@.len(),
            lm == listings_model(listings@),
            lm.len() == listings@.len(),
            match spec_find_completed(am.skip(i as int), lm) {
                t => spec_find_completed(am, lm) == crate::state::completed_m(out@) + t,
            },
        decreases actions@.len() - i,
    {
        proof {
            assert(am.skip(i as int)[0] == am[i as int]);
            assert(am[i as int] == actions@[i as int]@);
            assert(am.skip(i as int).drop_first() =~= am.skip(i as int + 1));
        }
        let products = actions[i].products();
        let ghost pm = spec_action_products(am[i as int]);
        proof {
            assert(strs_model(products@) == pm);
            assert(strs_model(products@).len() == products@.len());
        }
        if products.len() > 0 {
            // Collect the directories where every product is present.
            let mut dirs: Vec<String> = Vec::new();
            let mut j: usize = 0;
            proof {
                assert(lm.skip(0) =~= lm);
            }
            while j < listings.len()
                invariant
                    j <= listings@.len(),
                    lm == listings_model(listings@),
                    lm.len() == listings@.len(),
                    pm == strs_model(products@),
                    pm.len() == products@.len(),
                    match spec_complete_dirs(lm.skip(j as int), pm) {
                        t => spec_complete_dirs(lm, pm) == strs_model(dirs@) + t,
                    },
                decreases listings@.len() - j,
            {
                proof {
                    assert(lm.skip(j as int)[0] == lm[j as int]);
                    assert(lm[j as int] == (listings@[j as int].0@, strs_model(
                        listings@[j as int].1@,
                    )));
                    assert(lm.skip(j as int).drop_first() =~= lm.skip(j as int + 1));
                }
                if all_present(&products, &listings[j].1) {
                    let ghost before = strs_model(dirs@);
                    dirs.push(listings[j].0.clone());
                    proof {
                        assert(strs_model(dirs@) =~= before + seq![lm[j as int].0]);
                        let t = spec_complete_dirs(lm.skip(j as int + 1), pm);
                        assert(before + (seq![lm[j as int].0] + t) =~= (before + seq![
                            lm[j as int].0,
                        ]) + t);
                    }
                }
                j = j + 1;
            }
            proof {
                assert(lm.skip(listings@.len() as int).len() == 0);
                assert(strs_model(dirs@) + Seq::<Seq<char>>::empty() =~= strs_model(dirs@));
            }
            if dirs.len() > 0 {
                let ghost before = crate::state::completed_m(out@);
                let ghost dm = strs_model(dirs@);
                out.push((actions[i].name().to_owned(), dirs));
                proof {
                    assert(crate::state::completed_m(out@) =~= before + seq![
                        (spec_action_name(am[i as int]), dm),
                    ]);
                    let t = spec_find_completed(am.skip(i as int + 1), lm);
                    assert(before + (seq![(spec_action_name(am[i as int]), dm)] + t) =~= (before
                        + seq![(spec_action_name(am[i as int]), dm)]) + t);
                }
            }
        }
        i = i + 1;
    }
    proof {
        assert(am.skip(actions@.len() as int).len() == 0);
        assert(crate::state::completed_m(out@) + Seq::<(Seq<char>, Seq<Seq<char>>)>::empty()
            =~= crate::state::completed_m(out@));
    }
    out
}

/// Whether every product is present in a directory's files.
#[verifier::loop_isolation(false)]
fn all_present(products: &Vec<String>, files: &Vec<String>) -> (r: bool)
    ensures
        r == spec_products_present(strs_model(products@), strs_model(files@)),
{
    let ghost pm = strs_model(products@);
    let mut i: usize = 0;
    while i < products.len()
        invariant
            i <= products@.len(),
            pm.len() == products@.len(),
            forall|p: int|
                0 <= p < i ==> strs_model(files@).contains(#[trigger] pm[p]),
        decreases products@.len() - i,
    {
        proof {
            assert(pm[i as int] == products@[i as int]@);
        }
        if !crate::state::contains_str(files, products[i].as_str()) {
            proof {
                assert(!strs_model(files@).contains(pm[i as int]));
            }
            return false;
        }
        i = i + 1;
    }
    true
}

} // verus!
