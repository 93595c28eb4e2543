//! The routing table: which component owns which event variant.

use vstd::prelude::*;

verus! {

/// The statement that a component owns an event variant.
#[derive(Clone, Copy, Debug, PartialEq, Eq, Structural)]
pub struct Claim {
    pub variant: usize,
    pub component: usize,
}

/// Why a set of claims gives no routing table.
#[derive(Clone, Copy, Debug, PartialEq, Eq, Structural)]
pub enum RoutingError {
    /// The claim at this position names a variant that is not registered.
    UnknownVariant { claim: usize },
    /// The claim at this position names a component that does not take part.
    UnknownComponent { claim: usize },
    /// This variant is claimed a second time.
    Ambiguous { variant: usize },
    /// This variant has no owner.
    Unroutable { variant: usize },
}

/// The owners recorded by the claims, taken in order, or the first claim that cannot stand.
pub open spec fn claimed(variants: usize, components: usize, claims: Seq<Claim>) -> Result<
    Seq<Option<usize>>,
    RoutingError,
>
    decreases claims.len(),
{
    if claims.len() == 0 {
        Ok(Seq::new(variants as nat, |v: int| None))
    } else {
        match claimed(variants, components, claims.drop_last()) {
            Err(e) => Err(e),
            Ok(owners) => {
                let claim = claims.last();
                if claim.variant >= variants {
                    Err(RoutingError::UnknownVariant { claim: (claims.len() - 1) as usize })
                } else if claim.component >= components {
                    Err(RoutingError::UnknownComponent { claim: (claims.len() - 1) as usize })
                } else if owners[claim.variant as int] is Some {
                    Err(RoutingError::Ambiguous { variant: claim.variant })
                } else {
                    Ok(owners.update(claim.variant as int, Some(claim.component)))
                }
            },
        }
    }
}

/// Whether `v` is the first variant without an owner.
pub open spec fn first_unowned(owners: Seq<Option<usize>>, v: int) -> bool {
    &&& 0 <= v < owners.len()
    &&& owners[v] is None
    &&& forall|u: int| 0 <= u < v ==> owners[u] is Some
}

/// The routing table that the claims give: per variant its owner. The claims
/// are judged in order; after them, the first variant without an owner is an error.
pub open spec fn built(variants: usize, components: usize, claims: Seq<Claim>) -> Result<
    Seq<usize>,
    RoutingError,
> {
    match claimed(variants, components, claims) {
        Err(e) => Err(e),
        Ok(owners) => if exists|v: int| first_unowned(owners, v) {
            Err(RoutingError::Unroutable { variant: (choose|v: int| first_unowned(owners, v)) as usize })
        } else {
            Ok(Seq::new(owners.len(), |v: int| owners[v]->0))
        },
    }
}

/// Every claim names a registered variant and a participating component, and
/// no variant is claimed twice.
pub open spec fn claims_stand(variants: usize, components: usize, claims: Seq<Claim>) -> bool {
    &&& forall|i: int|
        0 <= i < claims.len() ==> (#[trigger] claims[i]).variant < variants && claims[i].component
            < components
    &&& forall|i: int, j: int|
        0 <= i < j < claims.len() ==> (#[trigger] claims[i]).variant != (#[trigger] claims[j]).variant
}

/// Whether some claim speaks of the variant.
pub open spec fn is_claimed(claims: Seq<Claim>, v: int) -> bool {
    exists|i: int| 0 <= i < claims.len() && (#[trigger] claims[i]).variant == v
}

/// What `claimed` records: it succeeds exactly when the claims stand, and then
/// holds for each variant the component of the claim that speaks of it.
pub proof fn lemma_claimed(variants: usize, components: usize, claims: Seq<Claim>)
    ensures
        claimed(variants, components, claims) is Ok <==> claims_stand(variants, components, claims),
        claimed(variants, components, claims) matches Ok(owners) ==> {
            &&& owners.len() == variants
            &&& forall|i: int|
                0 <= i < claims.len() ==> owners[(#[trigger] claims[i]).variant as int] == Some(
                    claims[i].component,
                )
            &&& forall|v: int| 0 <= v < variants && !is_claimed(claims, v) ==> owners[v] is None
        },
    decreases claims.len(),
{
    if claims.len() > 0 {
        let front = claims.drop_last();
        let n = claims.len() - 1;
        lemma_claimed(variants, components, front);
        assert(forall|i: int| 0 <= i < n ==> front[i] == claims[i]);
        match claimed(variants, components, front) {
            Err(e) => {
                if claims_stand(variants, components, claims) {
                    assert(claims_stand(variants, components, front));
                }
            },
            Ok(before) => {
                let claim = claims[n];
                let v = claim.variant as int;
                if claimed(variants, components, claims) is Ok {
                    let owners = claimed(variants, components, claims)->Ok_0;
                    assert forall|i: int, j: int| 0 <= i < j < claims.len() implies (
                    #[trigger] claims[i]).variant != (#[trigger] claims[j]).variant by {
                        if j == n {
                            assert(before[front[i].variant as int] is Some);
                        }
                    }
                    assert forall|u: int|
                        0 <= u < variants && !is_claimed(claims, u) implies owners[u] is None by {
                        assert(claims[n].variant != u);
                        if is_claimed(front, u) {
                            let i = choose|i: int| 0 <= i < front.len() && (#[trigger] front[i]).variant == u;
                            assert(claims[i].variant == u);
                        }
                    }
                } else {
                    if v < variants && claim.component < components {
                        assert(before[v] is Some);
                        if !is_claimed(front, v) {
                            assert(before[v] is None);
                        }
                        let i = choose|i: int| 0 <= i < front.len() && (#[trigger] front[i]).variant == v;
                        assert(claims[i].variant == claims[n].variant);
                    }
                }
            },
        }
    }
}

/// Routing is complete: where the claims give a table, every registered
/// variant has an owner among the components, a claim says so, and no second
/// claim speaks of that variant. And a table is given exactly when the claims
/// stand and leave no variant out.
pub proof fn lemma_routing_complete(variants: usize, components: usize, claims: Seq<Claim>)
    ensures
        built(variants, components, claims) is Ok <==> claims_stand(variants, components, claims)
            && forall|v: int| 0 <= v < variants ==> is_claimed(claims, v),
        built(variants, components, claims) matches Ok(owners) ==> {
            &&& owners.len() == variants
            &&& forall|v: int| 0 <= v < variants ==> #[trigger] owners[v] < components
            &&& forall|i: int|
                0 <= i < claims.len() ==> owners[(#[trigger] claims[i]).variant as int]
                    == claims[i].component
            &&& forall|i: int, j: int|
                0 <= i < claims.len() && 0 <= j < claims.len() && (#[trigger] claims[i]).variant == (
                #[trigger] claims[j]).variant ==> i == j
        },
{
    lemma_claimed(variants, components, claims);
    if claimed(variants, components, claims) is Ok {
        let owners = claimed(variants, components, claims)->Ok_0;
        if exists|v: int| first_unowned(owners, v) {
            let v = choose|v: int| first_unowned(owners, v);
            if is_claimed(claims, v) {
                let i = choose|i: int| 0 <= i < claims.len() && (#[trigger] claims[i]).variant == v;
                assert(owners[claims[i].variant as int] is Some);
            }
        } else {
            lemma_all_owned(owners, variants as int);
            assert forall|v: int| 0 <= v < variants implies is_claimed(claims, v) by {
                assert(owners[v] is Some);
            }
            let table = built(variants, components, claims)->Ok_0;
            assert forall|v: int| 0 <= v < variants implies #[trigger] table[v] < components by {
                assert(is_claimed(claims, v));
                let i = choose|i: int| 0 <= i < claims.len() && (#[trigger] claims[i]).variant == v;
                assert(owners[claims[i].variant as int] == Some(claims[i].component));
            }
            assert forall|i: int, j: int|
                0 <= i < claims.len() && 0 <= j < claims.len() && (#[trigger] claims[i]).variant == (
                #[trigger] claims[j]).variant implies i == j by {
                if i < j {
                    assert(claims[i].variant != claims[j].variant);
                }
                if j < i {
                    assert(claims[j].variant != claims[i].variant);
                }
            }
        }
    }
}

/// Where no variant is the first without an owner, every variant has one.
pub proof fn lemma_all_owned(owners: Seq<Option<usize>>, upto: int)
    requires
        0 <= upto <= owners.len(),
        !exists|v: int| first_unowned(owners, v),
    ensures
        forall|v: int| 0 <= v < upto ==> owners[v] is Some,
    decreases upto,
{
    if upto > 0 {
        lemma_all_owned(owners, upto - 1);
        if owners[upto - 1] is None {
            assert(first_unowned(owners, upto - 1));
        }
    }
}

/// Per event variant, the component that owns it.
pub struct RoutingTable {
    owners: Vec<usize>,
    components: usize,
}

impl View for RoutingTable {
    type V = Seq<usize>;

    closed spec fn view(&self) -> Seq<usize> {
        self.owners@
    }
}

impl RoutingTable {
    /// The number of components among which the table routes.
    pub closed spec fn components(&self) -> usize {
        self.components
    }

    /// Every variant's owner is one of the components.
    pub open spec fn wf(&self) -> bool {
        forall|v: int| 0 <= v < self@.len() ==> #[trigger] self@[v] < self.components()
    }

    /// Builds the table for `variants` event variants and `components`
    /// components. Fails unless every variant has exactly one owner.
    pub fn build(variants: usize, components: usize, claims: &Vec<Claim>) -> (table: Result<
        RoutingTable,
        RoutingError,
    >)
        ensures
            match table {
                Ok(t) => built(variants, components, claims@) == Ok::<Seq<usize>, RoutingError>(t@)
                    && t.wf() && t.components() == components && t@.len() == variants,
                Err(e) => built(variants, components, claims@) == Err::<Seq<usize>, RoutingError>(e),
            },
    {
        let mut owners: Vec<Option<usize>> = Vec::new();
        let mut v: usize = 0;
        while v < variants
            invariant
                v <= variants,
                owners@.len() == v,
                forall|u: int| 0 <= u < v ==> owners@[u] is None,
            decreases variants - v,
        {
            owners.push(None);
            v = v + 1;
        }
        assert(owners@ =~= Seq::new(variants as nat, |v: int| None::<usize>));
        let mut i: usize = 0;
        while i < claims.len()
            invariant
                i <= claims@.len(),
                owners@.len() == variants,
                claimed(variants, components, claims@.take(i as int)) == Ok::<
                    Seq<Option<usize>>,
                    RoutingError,
                >(owners@),
            decreases claims@.len() - i,
        {
            let claim = claims[i];
            proof {
                assert(claims@.take(i + 1).drop_last() == claims@.take(i as int));
                assert(claims@.take(i + 1).last() == claim);
            }
            let error = if claim.variant >= variants {
                Some(RoutingError::UnknownVariant { claim: i })
            } else if claim.component >= components {
                Some(RoutingError::UnknownComponent { claim: i })
            } else if owners[claim.variant].is_some() {
                Some(RoutingError::Ambiguous { variant: claim.variant })
            } else {
                None
            };
            if let Some(e) = error {
                proof {
                    lemma_claimed_error_stays(variants, components, claims@, i + 1);
                    assert(claims@.take(claims@.len() as int) == claims@);
                }
                return Err(e);
            }
            owners.set(claim.variant, Some(claim.component));
            i = i + 1;
        }
        proof {
            assert(claims@.take(i as int) == claims@);
        }
        let mut table: Vec<usize> = Vec::new();
        let mut v: usize = 0;
        while v < variants
            invariant
                v <= variants,
                owners@.len() == variants,
                table@.len() == v,
                claimed(variants, components, claims@) == Ok::<Seq<Option<usize>>, RoutingError>(
                    owners@,
                ),
                forall|u: int| 0 <= u < v ==> owners@[u] is Some,
                forall|u: int| 0 <= u < v ==> owners@[u] == Some(#[trigger] table@[u]),
            decreases variants - v,
        {
            match owners[v] {
                Some(owner) => {
                    table.push(owner);
                },
                None => {
                    proof {
                        assert(first_unowned(owners@, v as int));
                        let w = choose|w: int| first_unowned(owners@, w);
                        assert(w == v) by {
                            if w < v {
                                assert(owners@[w] is Some);
                            }
                            if v < w {
                                assert(owners@[v as int] is Some);
                            }
                        }
                    }
                    return Err(RoutingError::Unroutable { variant: v });
                },
            }
            v = v + 1;
        }
        proof {
            assert forall|w: int| !first_unowned(owners@, w) by {
                if 0 <= w < owners@.len() {
                    assert(owners@[w] is Some);
                }
            }
            assert(table@ =~= Seq::new(owners@.len(), |v: int| owners@[v]->0));
            lemma_routing_complete(variants, components, claims@);
        }
        Ok(RoutingTable { owners: table, components })
    }

    /// The number of registered event variants.
    pub fn variants(&self) -> (n: usize)
        ensures
            n == self@.len(),
    {
        self.owners.len()
    }

    /// The owner of a variant: every registered variant has one.
    pub fn route(&self, variant: usize) -> (owner: Option<usize>)
        requires
            self.wf(),
        ensures
            owner == (if variant < self@.len() {
                Some(self@[variant as int])
            } else {
                None
            }),
            owner matches Some(c) ==> c < self.components(),
    {
        if variant < self.owners.len() {
            Some(self.owners[variant])
        } else {
            None
        }
    }
}

/// Once a claim cannot stand, the claims after it change nothing.
pub proof fn lemma_claimed_error_stays(variants: usize, components: usize, claims: Seq<Claim>, n: int)
    requires
        0 <= n <= claims.len(),
        claimed(variants, components, claims.take(n)) is Err,
    ensures
        claimed(variants, components, claims) == claimed(variants, components, claims.take(n)),
    decreases claims.len() - n,
{
    if n < claims.len() {
        assert(claims.take(n + 1).drop_last() == claims.take(n));
        lemma_claimed_error_stays(variants, components, claims, n + 1);
    } else {
        assert(claims.take(n) == claims);
    }
}

} // verus!
