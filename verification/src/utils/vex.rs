//! Counting the identifiers that advisories name.
//!
//! An advisory names products in three places: in the branches of its
//! product tree, in a list of full product names, and in the relationships
//! between products. A product may give its identifier.

use crate::frequency::{countable, fits, lists, seen_all, CountOverflow, Entry, FrequencyTable};
use crate::text::texts_view;
use vstd::prelude::*;

verus! {

/// A product that an advisory names.
#[derive(Debug, Clone, PartialEq, Eq)]
pub struct Product {
    /// The identifier of the product, as it prints, if the advisory gives one.
    pub cpe: Option<String>,
}

/// A branch of the product tree: it may name a product, and may branch
/// further.
#[derive(Debug, PartialEq, Eq)]
pub struct Branch {
    pub product: Option<Product>,
    pub branches: Vec<Branch>,
}

/// What the tasks read of the product tree of an advisory.
#[derive(Debug, PartialEq, Eq)]
pub struct ProductTree {
    pub branches: Vec<Branch>,
    pub full_product_names: Vec<Product>,
    /// The product of each relationship.
    pub relationships: Vec<Product>,
}

/// What the tasks read of a decoded advisory.
#[derive(Debug, PartialEq, Eq)]
pub struct Advisory {
    pub product_tree: Option<ProductTree>,
}

/// The identifier of a product, if there is a product and it has one.
pub open spec fn product_cpes(product: Option<Product>) -> Seq<Seq<char>> {
    match product {
        Some(Product { cpe: Some(cpe) }) => seq![cpe@],
        _ => Seq::empty(),
    }
}

/// The identifiers of a list of products, in the order of the list.
pub open spec fn products_cpes(products: Seq<Product>) -> Seq<Seq<char>>
    decreases products.len(),
{
    if products.len() == 0 {
        Seq::empty()
    } else {
        products_cpes(products.drop_last()) + product_cpes(Some(products.last()))
    }
}

/// The identifiers under a branch: that of its own product, then those under
/// the branches that it has.
pub open spec fn branch_cpes(branch: Branch) -> Seq<Seq<char>>
    decreases branch, 1nat,
{
    product_cpes(branch.product) + forest_cpes(branch.branches@)
}

/// The identifiers under some branches, one branch after the other.
pub open spec fn forest_cpes(branches: Seq<Branch>) -> Seq<Seq<char>>
    decreases branches, 0nat,
{
    if branches.len() == 0 {
        Seq::empty()
    } else {
        forest_cpes(branches.drop_last()) + branch_cpes(branches.last())
    }
}

/// The identifiers that a product tree names: those under its branches, then
/// those of the full product names, then those of the relationships.
pub open spec fn tree_cpes(tree: ProductTree) -> Seq<Seq<char>> {
    forest_cpes(tree.branches@) + products_cpes(tree.full_product_names@) + products_cpes(
        tree.relationships@,
    )
}

/// The identifiers that an advisory names, each as often as it names it.
pub open spec fn advisory_cpes(advisory: Advisory) -> Seq<Seq<char>> {
    match advisory.product_tree {
        Some(tree) => tree_cpes(tree),
        None => Seq::empty(),
    }
}

/// Adds the identifier of a product.
fn add_product(product: &Product, cpes: &mut Vec<String>)
    ensures
        texts_view(final(cpes)@) == texts_view(old(cpes)@) + product_cpes(Some(*product)),
{
    let ghost before = cpes@;
    match &product.cpe {
        Some(cpe) => {
            cpes.push(cpe.clone());
            assert(texts_view(cpes@) =~= texts_view(before) + seq![cpe@]);
        },
        None => {
            assert(texts_view(cpes@) =~= texts_view(before) + Seq::<Seq<char>>::empty());
        },
    }
}

/// Adds the identifiers of a list of products.
fn add_products(products: &Vec<Product>, cpes: &mut Vec<String>)
    ensures
        texts_view(final(cpes)@) == texts_view(old(cpes)@) + products_cpes(products@),
{
    let ghost before = texts_view(cpes@);
    assert(before + products_cpes(products@.take(0)) =~= before);
    let mut i: usize = 0;
    while i < products.len()
        invariant
            i <= products.len(),
            texts_view(cpes@) == before + products_cpes(products@.take(i as int)),
        decreases products.len() - i,
    {
        proof {
            assert(products@.take(i + 1).drop_last() =~= products@.take(i as int));
            assert(products@.take(i + 1).last() == products[i as int]);
        }
        add_product(&products[i], cpes);
        assert(texts_view(cpes@) =~= before + products_cpes(products@.take(i + 1)));
        i += 1;
    }
    assert(products@.take(products.len() as int) =~= products@);
}

/// Adds the identifiers under a branch.
fn add_branch(branch: &Branch, cpes: &mut Vec<String>)
    ensures
        texts_view(final(cpes)@) == texts_view(old(cpes)@) + branch_cpes(*branch),
    decreases branch,
{
    let ghost before = texts_view(cpes@);
    match &branch.product {
        Some(product) => add_product(product, cpes),
        None => {
            assert(texts_view(cpes@) =~= before + product_cpes(None));
        },
    }
    let ghost own = before + product_cpes(branch.product);
    assert(own + forest_cpes(branch.branches@.take(0)) =~= own);
    let mut i: usize = 0;
    while i < branch.branches.len()
        invariant
            i <= branch.branches.len(),
            texts_view(cpes@) == own + forest_cpes(branch.branches@.take(i as int)),
        decreases branch.branches.len() - i,
    {
        proof {
            assert(branch.branches@.take(i + 1).drop_last() =~= branch.branches@.take(i as int));
            assert(branch.branches@.take(i + 1).last() == branch.branches[i as int]);
        }
        add_branch(&branch.branches[i], cpes);
        assert(texts_view(cpes@) =~= own + forest_cpes(branch.branches@.take(i + 1)));
        i += 1;
    }
    assert(branch.branches@.take(branch.branches.len() as int) =~= branch.branches@);
    assert(texts_view(cpes@) =~= before + branch_cpes(*branch));
}

/// The identifiers that an advisory names.
pub fn collect_cpe(advisory: &Advisory) -> (cpes: Vec<String>)
    ensures
        texts_view(cpes@) == advisory_cpes(*advisory),
{
    let mut cpes: Vec<String> = Vec::new();
    assert(texts_view(cpes@) =~= Seq::<Seq<char>>::empty());
    match &advisory.product_tree {
        None => {},
        Some(tree) => {
            assert(forest_cpes(tree.branches@.take(0)) =~= Seq::<Seq<char>>::empty());
            let mut i: usize = 0;
            while i < tree.branches.len()
                invariant
                    i <= tree.branches.len(),
                    texts_view(cpes@) == forest_cpes(tree.branches@.take(i as int)),
                decreases tree.branches.len() - i,
            {
                proof {
                    assert(tree.branches@.take(i + 1).drop_last() =~= tree.branches@.take(
                        i as int,
                    ));
                    assert(tree.branches@.take(i + 1).last() == tree.branches[i as int]);
                }
                add_branch(&tree.branches[i], &mut cpes);
                i += 1;
            }
            assert(tree.branches@.take(tree.branches.len() as int) =~= tree.branches@);
            add_products(&tree.full_product_names, &mut cpes);
            add_products(&tree.relationships, &mut cpes);
        },
    }
    cpes
}

/// Counts, over all advisories, the identifiers of the products that they
/// name.
#[derive(Debug, PartialEq, Eq)]
pub struct CollectCpe {
    pub map: FrequencyTable,
}

impl CollectCpe {
    /// A task that has counted nothing yet.
    pub fn new() -> (task: CollectCpe)
        ensures
            task.map@ == Map::<Seq<char>, nat>::empty(),
    {
        CollectCpe { map: FrequencyTable::new() }
    }

    /// Counts the identifiers that one advisory names, each as often as it
    /// names it. A key whose count is at the largest number stops the work;
    /// the keys before it stay counted.
    pub fn process(&mut self, advisory: &Advisory) -> (outcome: Result<(), CountOverflow>)
        ensures
            final(self).map@ == seen_all(
                old(self).map@,
                advisory_cpes(*advisory).take(countable(old(self).map@, advisory_cpes(*advisory))),
            ),
            0 <= countable(old(self).map@, advisory_cpes(*advisory)) <= advisory_cpes(
                *advisory,
            ).len(),
            outcome is Ok <==> countable(old(self).map@, advisory_cpes(*advisory))
                == advisory_cpes(*advisory).len(),
            outcome is Ok <==> fits(old(self).map@, advisory_cpes(*advisory)),
            outcome is Ok ==> final(self).map@ == seen_all(
                old(self).map@,
                advisory_cpes(*advisory),
            ),
            outcome matches Err(error) ==> error.key@ == advisory_cpes(*advisory)[countable(
                old(self).map@,
                advisory_cpes(*advisory),
            )],
    {
        let cpes = collect_cpe(advisory);
        self.map.record_all(&cpes)
    }

    /// Ends the task: the keys it has counted, in their order, each with its
    /// count.
    pub fn finalize(self) -> (report: Vec<Entry>)
        ensures
            lists(report@, self.map@),
    {
        self.map.into_entries()
    }
}

impl Default for CollectCpe {
    fn default() -> (task: CollectCpe)
        ensures
            task.map@ == Map::<Seq<char>, nat>::empty(),
    {
        CollectCpe::new()
    }
}

} // verus!
