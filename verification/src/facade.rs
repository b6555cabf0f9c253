//! The symbolic layer: species by name, reactions as reactant/product
//! name lists with a rate given numerically or as expression text, and
//! a checkpointed run driver over the engine.

use vstd::prelude::*;
use crate::expr::{
    PExpr, RateParseError, spec_lookup_from, spec_parse, spec_resolve, name_views, param_views,
    lookup_name, to_text_num,
};
use crate::gillespie;
use crate::ieee::{mul_bits, div_bits, of_int_bits, lt_bits, real_mul, real_div, real_of_int};

verus! {

/// A rate specification as the caller gives it: a law-of-mass-action
/// constant (binary64 bits), or expression text to be parsed.
#[derive(Clone, Debug)]
pub enum RateSpec {
    Lma(u64),
    Expr(String),
}

/// A registered rate: a law-of-mass-action constant with its reactant
/// names, or a parsed expression.
#[derive(Clone, Debug)]
pub enum PRate {
    Lma(u64, Vec<String>),
    Expr(PExpr),
}

/// The rate specification parses: numeric always, expression text iff
/// the grammar accepts it whole.
pub open spec fn rate_spec_parses(rs: RateSpec) -> bool {
    match rs {
        RateSpec::Lma(_) => true,
        RateSpec::Expr(t) => spec_parse(t@) is Some,
    }
}

/// The registered rate `p` is the classification of specification `rs`
/// against the given reactant names.
pub open spec fn prate_matches(p: PRate, rs: RateSpec, reactants: Seq<String>) -> bool {
    match rs {
        RateSpec::Lma(c) => p matches PRate::Lma(c2, rr) && c2 == c && rr@ == reactants,
        RateSpec::Expr(t) => p matches PRate::Expr(e) && spec_parse(t@) == Some(e@),
    }
}

/// How many of the first `k` reactant names resolve to species index
/// `i`.
pub open spec fn reactant_multiplicity(
    reactants: Seq<String>,
    names: Seq<Seq<char>>,
    i: int,
    k: int,
) -> int
    decreases k,
{
    if k <= 0 {
        0
    } else {
        reactant_multiplicity(reactants, names, i, k - 1) + (if spec_lookup_from(
            names,
            reactants[k - 1]@,
            0,
        ) == Some(i) {
            1int
        } else {
            0int
        })
    }
}

/// Saturation at the largest 32-bit exponent.
pub open spec fn sat32(n: int) -> int {
    if n > u32::MAX {
        u32::MAX as int
    } else {
        n
    }
}

impl PRate {
    /// Classify a rate specification, parsing expression text.
    pub fn new(rate: RateSpec, reactants: &Vec<String>) -> (r: Result<PRate, RateParseError>)
        ensures
            r matches Ok(p) ==> prate_matches(p, rate, reactants@),
            r is Ok <==> rate_spec_parses(rate),
    {
        match rate {
            RateSpec::Lma(c) => {
                let mut rs: Vec<String> = Vec::new();
                let mut k: usize = 0;
                while k < reactants.len()
                    invariant
                        k <= reactants@.len(),
                        rs@ =~= reactants@.take(k as int),
                    decreases reactants@.len() - k,
                {
                    rs.push(reactants[k].clone());
                    k += 1;
                }
                proof {
                    assert(reactants@.take(reactants@.len() as int) =~= reactants@);
                }
                Ok(PRate::Lma(c, rs))
            },
            RateSpec::Expr(text) => {
                match PExpr::parse_text(text.as_str()) {
                    Ok(e) => Ok(PRate::Expr(e)),
                    Err(e) => Err(e),
                }
            },
        }
    }

    /// Lower to an engine rate.  For a law-of-mass-action rate the
    /// exponent of species `i` is the number of reactant names that
    /// resolve to `i` (saturating at the 32-bit bound; a name missing
    /// from the registry — impossible through `run`, which registers
    /// every reaction name — contributes to no exponent).  An
    /// expression rate is resolved against species and parameters.
    pub fn to_gillespie_rate(
        &self,
        species: &Vec<String>,
        params: &Vec<(String, u64)>,
    ) -> (r: Result<gillespie::Rate, String>)
        ensures
            r matches Ok(rt) ==> gillespie::rate_below(rt, species@.len() as nat),
            match self {
                PRate::Lma(c, reactants) => r matches Ok(rt) && rt matches gillespie::Rate::LMA(
                    c2,
                    ex,
                ) && c2 == c && ex@.len() == species@.len() && (forall|i: int|
                    0 <= i < species@.len() ==> ex@[i] == sat32(
                        reactant_multiplicity(
                            reactants@,
                            name_views(species@),
                            i,
                            reactants@.len() as int,
                        ),
                    )),
                PRate::Expr(pe) => match r {
                    Ok(rt) => rt matches gillespie::Rate::Expr(e) && spec_resolve(
                        pe@,
                        name_views(species@),
                        param_views(params@),
                    ) == Some(e),
                    Err(_) => spec_resolve(pe@, name_views(species@), param_views(params@))
                        is None,
                },
            },
    {
        match self {
            PRate::Lma(c, reactants) => {
                let ghost nv = name_views(species@);
                let ghost gr = reactants@;
                let n = species.len();
                let mut exps: Vec<u32> = Vec::new();
                let mut k: usize = 0;
                while k < n
                    invariant
                        k <= n,
                        exps@.len() == k,
                        forall|i: int| 0 <= i < k ==> exps@[i] == 0u32,
                    decreases n - k,
                {
                    exps.push(0);
                    k += 1;
                }
                let mut k: usize = 0;
                while k < reactants.len()
                    invariant
                        k <= reactants@.len(),
                        reactants@ == gr,
                        exps@.len() == n,
                        n == species@.len(),
                        nv == name_views(species@),
                        forall|i: int|
                            0 <= i < n ==> exps@[i] == sat32(
                                reactant_multiplicity(gr, nv, i, k as int),
                            ),
                    decreases reactants@.len() - k,
                {
                    match lookup_name(species, &reactants[k]) {
                        Some(id) => {
                            // registered when the reaction was added
                            let cur = exps[id];
                            if cur < u32::MAX {
                                exps.set(id, cur + 1);
                            }
                        },
                        None => {},
                    }
                    k += 1;
                }
                Ok(gillespie::Rate::LMA(*c, exps))
            },
            PRate::Expr(pexpr) => {
                match pexpr.to_expr(species, params) {
                    Ok(e) => Ok(gillespie::Rate::Expr(e)),
                    Err(m) => Err(m),
                }
            },
        }
    }

    /// The textual form of the rate: `LMA(<c>)` with the constant in
    /// its shortest round-tripping decimal form, or the expression's
    /// parenthesized text.
    pub fn to_text(&self) -> (r: Option<String>)
        ensures
            r matches Some(t) ==> (match self {
                PRate::Lma(c, _) => t@.len() > 5 && t@.subrange(0, 4) == "LMA("@ && t@.last()
                    == ')' && crate::expr::num_text_rel(*c, t@.subrange(4, t@.len() - 1)),
                PRate::Expr(e) => t@.len() > 0 && (crate::expr::printable(e@)
                    ==> crate::expr::prints_to(e@, t@)),
            }),
    {
        match self {
            PRate::Lma(c, _) => {
                match to_text_num(*c) {
                    Some(num) => {
                        let ghost nv = num@;
                        let mut out = String::from_str("LMA(");
                        out.append(num.as_str());
                        out.append(")");
                        proof {
                            reveal_strlit("LMA(");
                            reveal_strlit(")");
                            assert(out@.subrange(0, 4) =~= "LMA("@);
                            assert(out@.subrange(4, out@.len() - 1) =~= nv) by {
                                assert(out@ == "LMA("@ + nv + ")"@);
                            }
                            assert(nv.len() >= 1) by {
                                if crate::ieee::is_nan(*c) {
                                    reveal_strlit("NaN");
                                } else if crate::ieee::is_inf(*c) && !crate::ieee::sign_of(*c) {
                                    reveal_strlit("inf");
                                } else if crate::ieee::is_inf(*c) {
                                    reveal_strlit("-inf");
                                }
                            }
                        }
                        Some(out)
                    },
                    None => None,
                }
            },
            PRate::Expr(e) => e.to_text(),
        }
    }
}

// ---------------------------------------------------------------------
// The species registry as a fold.
// ---------------------------------------------------------------------

/// Register names in order: push each one not seen before.
pub open spec fn register_all(names: Seq<Seq<char>>, xs: Seq<Seq<char>>) -> Seq<Seq<char>>
    decreases xs.len(),
{
    if xs.len() == 0 {
        names
    } else {
        let prev = register_all(names, xs.drop_last());
        if spec_lookup_from(prev, xs.last(), 0) is Some {
            prev
        } else {
            prev.push(xs.last())
        }
    }
}

/// The names of the initial-count entries, in order.
pub open spec fn init_names(init: Seq<(String, usize)>) -> Seq<Seq<char>> {
    init.map_values(|p: (String, usize)| p.0@)
}

/// The initial counts, by name view.
pub open spec fn init_view(init: Seq<(String, usize)>) -> Seq<(Seq<char>, int)> {
    init.map_values(|p: (String, usize)| (p.0@, p.1 as int))
}

/// A name is found from position `k` exactly when it occurs there.
proof fn lemma_lookup_member(names: Seq<Seq<char>>, x: Seq<char>, k: int)
    requires
        0 <= k,
    ensures
        spec_lookup_from(names, x, k) is Some <==> exists|j: int| k <= j < names.len() && names[j]
            == x,
    decreases names.len() - k,
{
    if k < names.len() {
        lemma_lookup_member(names, x, k + 1);
        if names[k] == x {
        } else if spec_lookup_from(names, x, k + 1) is Some {
        }
    }
}

/// A name is found after registration exactly when it was found before
/// or is among the registered names.
proof fn lemma_register_member(names: Seq<Seq<char>>, xs: Seq<Seq<char>>, x: Seq<char>)
    ensures
        spec_lookup_from(register_all(names, xs), x, 0) is Some <==> (spec_lookup_from(
            names,
            x,
            0,
        ) is Some || exists|j: int| 0 <= j < xs.len() && xs[j] == x),
    decreases xs.len(),
{
    if xs.len() == 0 {
    } else {
        let pre = xs.drop_last();
        let y = xs.last();
        lemma_register_member(names, pre, x);
        let prev = register_all(names, pre);
        lemma_lookup_member(prev, x, 0);
        lemma_lookup_member(prev.push(y), x, 0);
        assert forall|j: int| 0 <= j < pre.len() implies #[trigger] pre[j] == xs[j] by {}
        let found_xs = exists|j: int| 0 <= j < xs.len() && xs[j] == x;
        let found_pre = exists|j: int| 0 <= j < pre.len() && pre[j] == x;
        assert((found_pre || x == y) <==> found_xs) by {
            if found_pre {
                let j = choose|j: int| 0 <= j < pre.len() && pre[j] == x;
                assert(xs[j] == x);
            }
            if x == y {
                assert(xs[xs.len() - 1] == x);
            }
            if found_xs {
                let j = choose|j: int| 0 <= j < xs.len() && xs[j] == x;
                if j < xs.len() - 1 {
                    assert(pre[j] == x);
                } else {
                    assert(x == y);
                }
            }
        }
        if spec_lookup_from(prev, y, 0) is Some {
            assert(register_all(names, xs) == prev);
            if x == y {
                assert(spec_lookup_from(prev, x, 0) is Some);
            }
        } else {
            assert(register_all(names, xs) == prev.push(y));
            assert(spec_lookup_from(prev.push(y), x, 0) is Some <==> (spec_lookup_from(
                prev,
                x,
                0,
            ) is Some || x == y)) by {
                if spec_lookup_from(prev, x, 0) is Some {
                    let j = choose|j: int| 0 <= j < prev.len() && prev[j] == x;
                    assert(prev.push(y)[j] == x);
                }
                if x == y {
                    assert(prev.push(y)[prev.len() as int] == x);
                }
                if spec_lookup_from(prev.push(y), x, 0) is Some {
                    let j = choose|j: int|
                        0 <= j < prev.push(y).len() && prev.push(y)[j] == x;
                    if j < prev.len() {
                        assert(prev[j] == x);
                    } else {
                        assert(x == y);
                    }
                }
            }
        }
    }
}

/// Registering a concatenation registers the parts in turn.
proof fn lemma_register_concat(names: Seq<Seq<char>>, xs: Seq<Seq<char>>, ys: Seq<Seq<char>>)
    ensures
        register_all(names, xs + ys) == register_all(register_all(names, xs), ys),
    decreases ys.len(),
{
    if ys.len() == 0 {
        assert(xs + ys =~= xs);
    } else {
        lemma_register_concat(names, xs, ys.drop_last());
        assert((xs + ys).drop_last() =~= xs + ys.drop_last());
        assert((xs + ys).last() == ys.last());
    }
}

/// The variable names of a parsed expression, left to right.
pub open spec fn expr_vars(e: crate::expr::PExprV) -> Seq<Seq<char>>
    decreases e,
{
    match e {
        crate::expr::PExprV::Constant(_) => Seq::empty(),
        crate::expr::PExprV::Variable(x) => seq![x],
        crate::expr::PExprV::Add(a, b) => expr_vars(*a) + expr_vars(*b),
        crate::expr::PExprV::Sub(a, b) => expr_vars(*a) + expr_vars(*b),
        crate::expr::PExprV::Mul(a, b) => expr_vars(*a) + expr_vars(*b),
        crate::expr::PExprV::Div(a, b) => expr_vars(*a) + expr_vars(*b),
        crate::expr::PExprV::Pow(a, b) => expr_vars(*a) + expr_vars(*b),
        crate::expr::PExprV::Exp(a) => expr_vars(*a),
    }
}

/// One reaction was appended: the new list extends the old by one
/// entry holding the classified rate and the very name lists.
pub open spec fn one_more_reaction(
    before: Seq<(PRate, Vec<String>, Vec<String>)>,
    after: Seq<(PRate, Vec<String>, Vec<String>)>,
    rate: RateSpec,
    reactants: Seq<String>,
    products: Seq<String>,
) -> bool {
    &&& after.len() == before.len() + 1
    &&& after.drop_last() == before
    &&& prate_matches(after.last().0, rate, reactants)
    &&& after.last().1@ == reactants
    &&& after.last().2@ == products
}

/// A reaction system built from names: the insertion-ordered species
/// registry, the initial counts, and the symbolic reactions.
#[derive(Debug)]
pub struct Gillespie {
    species: Vec<String>,
    init: Vec<(String, usize)>,
    reactions: Vec<(PRate, Vec<String>, Vec<String>)>,
}

impl Gillespie {
    /// The registered species names, in insertion order.
    pub closed spec fn species_names(&self) -> Seq<Seq<char>> {
        name_views(self.species@)
    }

    /// The number of registered reactions.
    pub closed spec fn spec_nb_reactions(&self) -> nat {
        self.reactions@.len()
    }

    /// The registered reactions: rate, reactant names, product names.
    pub closed spec fn spec_reactions(&self) -> Seq<(PRate, Vec<String>, Vec<String>)> {
        self.reactions@
    }

    /// The stored initial counts, by name view.
    pub closed spec fn spec_init(&self) -> Seq<(Seq<char>, int)> {
        init_view(self.init@)
    }

    /// An empty system.
    pub fn new() -> (r: Gillespie)
        ensures
            r.species_names().len() == 0,
            r.spec_nb_reactions() == 0,
    {
        Gillespie { species: Vec::new(), init: Vec::new(), reactions: Vec::new() }
    }

    /// Register a species name; a known name keeps its index.
    pub fn add_species(&mut self, species: &str)
        ensures
            spec_lookup_from(old(self).species_names(), species@, 0) is Some ==> final (self).species_names() == old(self).species_names(),
            spec_lookup_from(old(self).species_names(), species@, 0) is None ==> final (self).species_names() == old(self).species_names().push(species@),
            final (self).spec_nb_reactions() == old(self).spec_nb_reactions(),
            final (self).spec_reactions() == old(self).spec_reactions(),
            final (self).spec_init() == old(self).spec_init(),
    {
        let name = species.to_owned();
        match lookup_name(&self.species, &name) {
            Some(_) => {},
            None => {
                self.species.push(name);
                proof {
                    assert(name_views(self.species@) =~= name_views(old(self).species@).push(
                        species@,
                    ));
                }
            },
        }
    }

    /// The number of species currently registered.
    pub fn nb_species(&self) -> (r: usize)
        ensures
            r == self.species_names().len(),
    {
        self.species.len()
    }

    /// The number of reactions currently registered.
    pub fn nb_reactions(&self) -> (r: usize)
        ensures
            r == self.spec_nb_reactions(),
    {
        self.reactions.len()
    }

    /// Add a reaction: a rate specification, reactant names and product
    /// names; unknown names are registered, reactants first.  A reverse
    /// rate, when given, registers the mirror reaction with reactants
    /// and products swapped.  Fails exactly when some rate text does
    /// not parse; a failing reverse rate leaves the forward reaction
    /// registered, as the sequential registration implies.
    pub fn add_reaction(
        &mut self,
        rate: RateSpec,
        reactants: Vec<String>,
        products: Vec<String>,
        reverse_rate: Option<RateSpec>,
    ) -> (r: Result<(), RateParseError>)
        ensures
            r is Ok <==> (rate_spec_parses(rate) && (match reverse_rate {
                Some(rr) => rate_spec_parses(rr),
                None => true,
            })),
            final (self).spec_init() == old(self).spec_init(),
            !rate_spec_parses(rate) ==> (final (self).spec_reactions() == old(
                self,
            ).spec_reactions() && final (self).species_names() == old(self).species_names()),
            (rate_spec_parses(rate) && reverse_rate is None) ==> one_more_reaction(
                old(self).spec_reactions(),
                final (self).spec_reactions(),
                rate,
                reactants@,
                products@,
            ) && final (self).species_names() == register_all(
                register_all(old(self).species_names(), name_views(reactants@)),
                name_views(products@),
            ),
            (rate_spec_parses(rate) && (reverse_rate matches Some(rr) && !rate_spec_parses(rr)))
                ==> one_more_reaction(
                old(self).spec_reactions(),
                final (self).spec_reactions(),
                rate,
                reactants@,
                products@,
            ) && final (self).species_names() == register_all(
                register_all(old(self).species_names(), name_views(reactants@)),
                name_views(products@),
            ),
            (rate_spec_parses(rate) && (reverse_rate matches Some(rr) && rate_spec_parses(rr)))
                ==> ({
                &&& final (self).spec_reactions().len() == old(self).spec_reactions().len() + 2
                &&& one_more_reaction(
                    old(self).spec_reactions(),
                    final (self).spec_reactions().drop_last(),
                    rate,
                    reactants@,
                    products@,
                )
                &&& (reverse_rate matches Some(rr) && one_more_reaction(
                    final (self).spec_reactions().drop_last(),
                    final (self).spec_reactions(),
                    rr,
                    products@,
                    reactants@,
                ))
                &&& final (self).species_names() == register_all(
                    register_all(
                        register_all(
                            register_all(old(self).species_names(), name_views(reactants@)),
                            name_views(products@),
                        ),
                        name_views(products@),
                    ),
                    name_views(reactants@),
                )
            }),
    {
        match self.add_one_reaction(rate, &reactants, &products) {
            Ok(()) => {},
            Err(e) => {
                return Err(e);
            },
        }
        match reverse_rate {
            Some(rrate) => {
                match self.add_one_reaction(rrate, &products, &reactants) {
                    Ok(()) => Ok(()),
                    Err(e) => Err(e),
                }
            },
            None => Ok(()),
        }
    }

    /// Add one directed reaction, registering its names.
    fn add_one_reaction(
        &mut self,
        rate: RateSpec,
        reactants: &Vec<String>,
        products: &Vec<String>,
    ) -> (r: Result<(), RateParseError>)
        ensures
            r is Ok <==> rate_spec_parses(rate),
            final (self).spec_init() == old(self).spec_init(),
            r matches Ok(_) ==> one_more_reaction(
                old(self).spec_reactions(),
                final (self).spec_reactions(),
                rate,
                reactants@,
                products@,
            ) && final (self).species_names() == register_all(
                register_all(old(self).species_names(), name_views(reactants@)),
                name_views(products@),
            ),
            r is Err ==> (final (self).spec_reactions() == old(self).spec_reactions()
                && final (self).species_names() == old(self).species_names()),
    {
        let prate = match PRate::new(rate, reactants) {
            Ok(p) => p,
            Err(e) => {
                return Err(e);
            },
        };
        let ghost names0 = self.species_names();
        let mut k: usize = 0;
        while k < reactants.len()
            invariant
                k <= reactants@.len(),
                self.spec_reactions() == old(self).spec_reactions(),
                self.spec_init() == old(self).spec_init(),
                self.species_names() == register_all(
                    names0,
                    name_views(reactants@).take(k as int),
                ),
            decreases reactants@.len() - k,
        {
            proof {
                assert(name_views(reactants@).take(k + 1).drop_last() =~= name_views(
                    reactants@,
                ).take(k as int));
                assert(name_views(reactants@).take(k + 1).last() == reactants@[k as int]@);
            }
            self.add_species(reactants[k].as_str());
            k += 1;
        }
        proof {
            assert(name_views(reactants@).take(reactants@.len() as int) =~= name_views(
                reactants@,
            ));
        }
        let ghost names1 = self.species_names();
        let mut k: usize = 0;
        while k < products.len()
            invariant
                k <= products@.len(),
                self.spec_reactions() == old(self).spec_reactions(),
                self.spec_init() == old(self).spec_init(),
                self.species_names() == register_all(names1, name_views(products@).take(k as int)),
                names1 == register_all(names0, name_views(reactants@)),
            decreases products@.len() - k,
        {
            proof {
                assert(name_views(products@).take(k + 1).drop_last() =~= name_views(
                    products@,
                ).take(k as int));
                assert(name_views(products@).take(k + 1).last() == products@[k as int]@);
            }
            self.add_species(products[k].as_str());
            k += 1;
        }
        proof {
            assert(name_views(products@).take(products@.len() as int) =~= name_views(products@));
        }
        let mut rs: Vec<String> = Vec::new();
        let mut k: usize = 0;
        while k < reactants.len()
            invariant
                k <= reactants@.len(),
                rs@ =~= reactants@.take(k as int),
            decreases reactants@.len() - k,
        {
            rs.push(reactants[k].clone());
            k += 1;
        }
        let mut ps: Vec<String> = Vec::new();
        let mut k: usize = 0;
        while k < products.len()
            invariant
                k <= products@.len(),
                ps@ =~= products@.take(k as int),
            decreases products@.len() - k,
        {
            ps.push(products[k].clone());
            k += 1;
        }
        proof {
            assert(rs@ =~= reactants@.take(reactants@.len() as int));
            assert(reactants@.take(reactants@.len() as int) =~= reactants@);
            assert(ps@ =~= products@.take(products@.len() as int));
            assert(products@.take(products@.len() as int) =~= products@);
        }
        self.reactions.push((prate, rs, ps));
        proof {
            assert(self.spec_reactions().drop_last() =~= old(self).spec_reactions());
        }
        Ok(())
    }

    /// Register every variable name occurring in a parsed expression
    /// as a species, left to right.
    pub fn add_species_from_expr(&mut self, expr: &PExpr)
        ensures
            final (self).species_names() == register_all(
                old(self).species_names(),
                expr_vars(expr@),
            ),
            final (self).spec_reactions() == old(self).spec_reactions(),
            final (self).spec_init() == old(self).spec_init(),
        decreases expr,
    {
        match expr {
            PExpr::Constant(_) => {
                proof {
                    assert(expr@ matches crate::expr::PExprV::Constant(_));
                    assert(expr_vars(expr@).len() == 0);
                    assert(register_all(self.species_names(), expr_vars(expr@))
                        == self.species_names());
                }
            },
            PExpr::Variable(x) => {
                self.add_species(x.as_str());
                proof {
                    assert(expr_vars(expr@) =~= seq![x@]);
                    assert(seq![x@].drop_last() =~= Seq::<Seq<char>>::empty());
                    assert(seq![x@].last() == x@);
                    assert(register_all(old(self).species_names(), Seq::<Seq<char>>::empty())
                        == old(self).species_names());
                    assert(self.species_names() == register_all(
                        old(self).species_names(),
                        expr_vars(expr@),
                    ));
                }
            },
            PExpr::Add(a, b) => {
                self.add_species_from_expr(a);
                self.add_species_from_expr(b);
                proof {
                    lemma_register_concat(
                        old(self).species_names(),
                        expr_vars((*a)@),
                        expr_vars((*b)@),
                    );
                    assert(expr_vars(expr@) == expr_vars((*a)@) + expr_vars((*b)@));
                    assert(self.species_names() == register_all(
                        old(self).species_names(),
                        expr_vars(expr@),
                    ));
                }
            },
            PExpr::Sub(a, b) => {
                self.add_species_from_expr(a);
                self.add_species_from_expr(b);
                proof {
                    lemma_register_concat(
                        old(self).species_names(),
                        expr_vars((*a)@),
                        expr_vars((*b)@),
                    );
                }
            },
            PExpr::Mul(a, b) => {
                self.add_species_from_expr(a);
                self.add_species_from_expr(b);
                proof {
                    lemma_register_concat(
                        old(self).species_names(),
                        expr_vars((*a)@),
                        expr_vars((*b)@),
                    );
                }
            },
            PExpr::Div(a, b) => {
                self.add_species_from_expr(a);
                self.add_species_from_expr(b);
                proof {
                    lemma_register_concat(
                        old(self).species_names(),
                        expr_vars((*a)@),
                        expr_vars((*b)@),
                    );
                }
            },
            PExpr::Pow(a, b) => {
                self.add_species_from_expr(a);
                self.add_species_from_expr(b);
                proof {
                    lemma_register_concat(
                        old(self).species_names(),
                        expr_vars((*a)@),
                        expr_vars((*b)@),
                    );
                }
            },
            PExpr::Exp(a) => {
                self.add_species_from_expr(a);
            },
        }
    }

    /// Set the initial counts by name.  The counts are stored, every
    /// name is registered, and the call reports with `true` exactly
    /// when some name was not previously registered: such a species is
    /// in no reaction and was probably meant to be a parameter.
    pub fn set_init(&mut self, init: Vec<(String, usize)>) -> (warned: bool)
        ensures
            final (self).spec_init() == init_view(init@),
            final (self).species_names() == register_all(
                old(self).species_names(),
                init_names(init@),
            ),
            warned == exists|j: int|
                0 <= j < init@.len() && spec_lookup_from(
                    old(self).species_names(),
                    init@[j].0@,
                    0,
                ) is None,
            final (self).spec_reactions() == old(self).spec_reactions(),
    {
        let ghost names0 = self.species_names();
        let mut warned = false;
        let mut k: usize = 0;
        while k < init.len()
            invariant
                k <= init@.len(),
                self.spec_reactions() == old(self).spec_reactions(),
                self.spec_init() == old(self).spec_init(),
                names0 == old(self).species_names(),
                self.species_names() == register_all(names0, init_names(init@).take(k as int)),
                warned == exists|j: int|
                    0 <= j < k && spec_lookup_from(names0, init@[j].0@, 0) is None,
            decreases init@.len() - k,
        {
            proof {
                assert(init_names(init@).take(k + 1).drop_last() =~= init_names(init@).take(
                    k as int,
                ));
                assert(init_names(init@).take(k + 1).last() == init@[k as int].0@);
            }
            let ghost cur = self.species_names();
            let ghost x = init@[k as int].0@;
            match lookup_name(&self.species, &init[k].0) {
                Some(_) => {
                    proof {
                        if spec_lookup_from(names0, x, 0) is None {
                            // the name was added by an earlier entry,
                            // which already warned
                            lemma_register_member(
                                names0,
                                init_names(init@).take(k as int),
                                x,
                            );
                            let j = choose|j: int|
                                0 <= j < k && init_names(init@).take(k as int)[j] == x;
                            assert(init@[j].0@ == x);
                            assert(spec_lookup_from(names0, init@[j].0@, 0) is None);
                        }
                        assert((exists|j: int|
                            0 <= j < k + 1 && spec_lookup_from(names0, init@[j].0@, 0) is None)
                            == (exists|j: int|
                            0 <= j < k && spec_lookup_from(names0, init@[j].0@, 0) is None)
                            || spec_lookup_from(names0, x, 0) is None);
                    }
                },
                None => {
                    warned = true;
                    self.add_species(init[k].0.as_str());
                    proof {
                        lemma_register_member(names0, init_names(init@).take(k as int), x);
                        assert(spec_lookup_from(names0, x, 0) is None);
                        assert(spec_lookup_from(names0, init@[k as int].0@, 0) is None);
                    }
                },
            }
            k += 1;
        }
        proof {
            assert(init_names(init@).take(init@.len() as int) =~= init_names(init@));
        }
        self.init = init;
        warned
    }
}

/// The time grid of a checkpointed run: `tmax * i / nb_steps` in
/// binary64 arithmetic.
pub open spec fn grid_time(tmax: u64, nb_steps: usize, i: int) -> u64 {
    real_div(real_mul(tmax, real_of_int(i)), real_of_int(nb_steps as int))
}

/// The engine delta vector a reaction contributes: per species index,
/// the product multiplicity minus the reactant multiplicity, wrapped
/// into the signed word.
pub open spec fn delta_seq(
    rnames: Seq<String>,
    pnames: Seq<String>,
    names: Seq<Seq<char>>,
    n: int,
) -> Seq<isize> {
    Seq::new(
        n as nat,
        |i: int|
            gillespie::crop(
                reactant_multiplicity(pnames, names, i, pnames.len() as int)
                    - reactant_multiplicity(rnames, names, i, rnames.len() as int),
            ),
    )
}

/// The dense exponent vector of a law-of-mass-action rate: per species
/// index, the reactant multiplicity, saturated at the 32-bit bound.
pub open spec fn exps_seq(lr: Seq<String>, names: Seq<Seq<char>>, n: int) -> Seq<u32> {
    Seq::new(
        n as nat,
        |i: int| sat32(reactant_multiplicity(lr, names, i, lr.len() as int)) as u32,
    )
}

/// The engine reaction `rj` is the lowering of the symbolic reaction
/// (`pr`, `rnames`, `pnames`), in the dense or the sparse storage form.
pub open spec fn lowered_rel(
    pr: PRate,
    rnames: Seq<String>,
    pnames: Seq<String>,
    names: Seq<Seq<char>>,
    params: Seq<(String, u64)>,
    mode: bool,
    n: int,
    rj: (gillespie::Rate, gillespie::Jump),
) -> bool {
    let d = delta_seq(rnames, pnames, names, n);
    &&& (if !mode {
        rj.1 matches gillespie::Jump::Flat(dd) && dd@ == d
    } else {
        rj.1 matches gillespie::Jump::Sparse(q) && q@ == gillespie::flat_pairs(d)
    })
    &&& (match pr {
        PRate::Lma(c, lr) => {
            let ex = exps_seq(lr@, names, n);
            if !mode {
                rj.0 matches gillespie::Rate::LMA(c2, e) && c2 == c && e@ == ex
            } else {
                rj.0 matches gillespie::Rate::LMASparse(c2, p) && c2 == c && p@
                    == gillespie::rate_pairs(ex)
            }
        },
        PRate::Expr(pe) => rj.0 matches gillespie::Rate::Expr(e) && spec_resolve(
            pe@,
            names,
            param_views(params),
        ) == Some(e),
    })
}

/// The initial species vector: one slot per registered species,
/// starting at zero, then each initial-count entry written at its
/// name's index in order (truncated into the signed word).
pub open spec fn x0_of(names: Seq<Seq<char>>, init: Seq<(Seq<char>, int)>) -> Seq<isize>
    decreases init.len(),
{
    if init.len() == 0 {
        Seq::new(names.len(), |i: int| 0isize)
    } else {
        let prev = x0_of(names, init.drop_last());
        match spec_lookup_from(names, init.last().0, 0) {
            Some(id) => if 0 <= id < prev.len() {
                prev.update(id, init.last().1 as isize)
            } else {
                prev
            },
            None => prev,
        }
    }
}

/// The engine state after advancing through checkpoints 0 ..= i of the
/// grid.
pub open spec fn grid_walk(
    st0: gillespie::EngineState,
    tmax: u64,
    nb_steps: usize,
    i: int,
) -> gillespie::EngineState
    decreases i,
{
    if i <= 0 {
        gillespie::until_spec(st0, grid_time(tmax, nb_steps, 0), u64::MAX as nat)
    } else {
        gillespie::until_spec(
            grid_walk(st0, tmax, nb_steps, i - 1),
            grid_time(tmax, nb_steps, i),
            u64::MAX as nat,
        )
    }
}

/// The engine state after `i` unconditional single-reaction steps.
pub open spec fn trace_walk(st0: gillespie::EngineState, i: int) -> gillespie::EngineState
    decreases i,
{
    if i <= 0 {
        st0
    } else {
        gillespie::one_step(trace_walk(st0, i - 1))
    }
}

/// The dense index each requested name resolves to.
pub open spec fn save_index(names: Seq<Seq<char>>, var_names: Option<Vec<String>>, u: int) -> int {
    match var_names {
        Some(vn) => match spec_lookup_from(names, vn@[u]@, 0) {
            Some(id) => id,
            None => 0,
        },
        None => u,
    }
}

impl Gillespie {
    /// Some parameter name is also a registered species: a
    /// configuration error.
    pub open spec fn has_collision(&self, params: Seq<(String, u64)>) -> bool {
        exists|k: int|
            0 <= k < params.len() && spec_lookup_from(
                self.species_names(),
                (#[trigger] params[k]).0@,
                0,
            ) is Some
    }

    /// Every expression rate resolves against the registry and the
    /// parameters.
    pub open spec fn rates_resolve(&self, params: Seq<(String, u64)>) -> bool {
        forall|k: int|
            0 <= k < self.spec_reactions().len() ==> (match (
            #[trigger] self.spec_reactions()[k]).0 {
                PRate::Expr(pe) => spec_resolve(
                    pe@,
                    self.species_names(),
                    param_views(params),
                ) is Some,
                PRate::Lma(_, _) => true,
            })
    }

    /// Every requested name is a registered species.
    pub open spec fn names_known(&self, vn: Seq<String>) -> bool {
        forall|k: int|
            0 <= k < vn.len() ==> spec_lookup_from(
                self.species_names(),
                (#[trigger] vn[k])@,
                0,
            ) is Some
    }

    /// Run the system until `tmax` (binary64 bits) with `nb_steps`
    /// checkpoints.  When `nb_steps` is positive, the output times are
    /// `tmax * i / nb_steps` for `i` in `0 ..= nb_steps`, and the counts
    /// are snapshots after advancing to each; the engine time equals the
    /// checkpoint exactly.  When `nb_steps` is zero, every reaction is
    /// recorded, ending with the first at or after `tmax`.  Species
    /// counts are returned per name, for `var_names` or for every
    /// registered species.  Fails exactly when a parameter name is also
    /// a species, when an expression rate names an unbound identifier,
    /// when a requested name is unknown, or when the species count
    /// exceeds the 32-bit index space.
    ///
    /// With an explicit seed, every returned number is pinned: the
    /// counts are the species of the specified engine walk — grid
    /// checkpoints or single-reaction steps — from the initial counts,
    /// time zero and the seeded generator, over the lowering of the
    /// registered reactions (`lowered_rel`); two runs with equal
    /// arguments therefore return equal outputs.  Without a seed the
    /// generator starts from operating-system entropy and only the
    /// shapes are pinned.
    pub fn run(
        &self,
        tmax: u64,
        nb_steps: usize,
        params: Vec<(String, u64)>,
        seed: Option<u64>,
        sparse: Option<bool>,
        var_names: Option<Vec<String>>,
    ) -> (r: Result<(Vec<u64>, Vec<(String, Vec<isize>)>), String>)
        ensures
            r matches Ok(out) ==> ({
                &&& out.0@.len() >= 1
                &&& (nb_steps > 0 ==> out.0@.len() == nb_steps + 1)
                &&& (nb_steps > 0 ==> forall|i: int|
                    0 <= i < out.0@.len() ==> out.0@[i] == grid_time(tmax, nb_steps, i))
                &&& (forall|k: int|
                    0 <= k < out.1@.len() ==> (#[trigger] out.1@[k]).1@.len() == out.0@.len())
                &&& out.1@.len() == (match var_names {
                    Some(v) => v@.len(),
                    None => self.species_names().len(),
                })
            }),
            r is Ok <==> (!self.has_collision(params@) && self.rates_resolve(params@) && (
            match var_names {
                Some(vn) => self.names_known(vn@),
                None => true,
            }) && self.species_names().len() <= u32::MAX),
            r matches Ok(out) ==> (forall|u: int|
                0 <= u < out.1@.len() ==> (#[trigger] out.1@[u]).0@ == (match var_names {
                    Some(vn) => vn@[u]@,
                    None => self.species_names()[u],
                })),
            r matches Ok(out) ==> (nb_steps > 0 ==> (seed matches Some(sd)
                ==> (exists|rs: Seq<(gillespie::Rate, gillespie::Jump)>|
                #![trigger rs.len()]
                {
                    let st0 = gillespie::EngineState {
                        species: x0_of(self.species_names(), self.spec_init()),
                        t: crate::ieee::POS_ZERO,
                        reactions: rs,
                        rng: crate::rng::seed_state(sd),
                    };
                    &&& rs.len() == self.spec_nb_reactions()
                    &&& (forall|k2: int|
                        0 <= k2 < rs.len() ==> lowered_rel(
                            (#[trigger] self.spec_reactions()[k2]).0,
                            self.spec_reactions()[k2].1@,
                            self.spec_reactions()[k2].2@,
                            self.species_names(),
                            params@,
                            (match sparse {
                                Some(b) => b,
                                None => false,
                            }),
                            self.species_names().len() as int,
                            rs[k2],
                        ))
                    &&& (forall|i: int, u: int|
                        0 <= i <= nb_steps && 0 <= u < out.1@.len() ==> (
                        #[trigger] out.1@[u].1@[i]) == grid_walk(st0, tmax, nb_steps, i).species[save_index(
                            self.species_names(),
                            var_names,
                            u,
                        )])
                }))),
            r matches Ok(out) ==> (nb_steps == 0 ==> (seed matches Some(sd)
                ==> (exists|rs: Seq<(gillespie::Rate, gillespie::Jump)>|
                #![trigger rs.len()]
                {
                    let st0 = gillespie::EngineState {
                        species: x0_of(self.species_names(), self.spec_init()),
                        t: crate::ieee::POS_ZERO,
                        reactions: rs,
                        rng: crate::rng::seed_state(sd),
                    };
                    &&& rs.len() == self.spec_nb_reactions()
                    &&& (forall|k2: int|
                        0 <= k2 < rs.len() ==> lowered_rel(
                            (#[trigger] self.spec_reactions()[k2]).0,
                            self.spec_reactions()[k2].1@,
                            self.spec_reactions()[k2].2@,
                            self.species_names(),
                            params@,
                            (match sparse {
                                Some(b) => b,
                                None => false,
                            }),
                            self.species_names().len() as int,
                            rs[k2],
                        ))
                    &&& (forall|i: int|
                        0 <= i < out.0@.len() ==> (#[trigger] out.0@[i]) == trace_walk(st0, i).t)
                    &&& (forall|i: int, u: int|
                        0 <= i < out.0@.len() && 0 <= u < out.1@.len() ==> (
                        #[trigger] out.1@[u].1@[i]) == trace_walk(st0, i).species[save_index(
                            self.species_names(),
                            var_names,
                            u,
                        )])
                }))),
            r matches Ok(out) ==> (nb_steps == 0 ==> ({
                &&& (forall|t: int|
                    0 <= t < out.0@.len() - 1 ==> crate::ieee::f_lt(#[trigger] out.0@[t], tmax))
                &&& (out.0@.len() <= u64::MAX ==> !crate::ieee::f_lt(out.0@.last(), tmax))
            })),
    {
        let mut k: usize = 0;
        while k < params.len()
            invariant
                k <= params@.len(),
                forall|j: int|
                    0 <= j < k ==> spec_lookup_from(
                        self.species_names(),
                        (#[trigger] params@[j]).0@,
                        0,
                    ) is None,
            decreases params@.len() - k,
        {
            match lookup_name(&self.species, &params[k].0) {
                Some(_) => {
                    proof {
                        assert(self.has_collision(params@));
                    }
                    let mut msg = String::from_str("Species ");
                    msg.append(params[k].0.as_str());
                    msg.append(" cannot also be a parameter.");
                    return Err(msg);
                },
                None => {},
            }
            k += 1;
        }
        proof {
            assert(!self.has_collision(params@));
        }
        let nsp = self.species.len();
        if nsp > 0xFFFF_FFFFusize {
            return Err(String::from_str("too many species"));
        }
        let sparse_mode = match sparse {
            Some(b) => b,
            None => false,
        };
        let mut x0: Vec<isize> = Vec::new();
        let mut k: usize = 0;
        while k < nsp
            invariant
                x0@.len() == k,
                k <= nsp,
                forall|t: int| 0 <= t < k ==> x0@[t] == 0isize,
            decreases nsp - k,
        {
            x0.push(0);
            k += 1;
        }
        proof {
            assert(x0@ =~= x0_of(self.species_names(), self.spec_init().take(0)));
        }
        let mut k: usize = 0;
        while k < self.init.len()
            invariant
                x0@.len() == nsp,
                nsp == self.species@.len(),
                k <= self.init@.len(),
                x0@ == x0_of(self.species_names(), self.spec_init().take(k as int)),
            decreases self.init@.len() - k,
        {
            proof {
                assert(self.spec_init().take(k + 1).drop_last() =~= self.spec_init().take(
                    k as int,
                ));
                assert(self.spec_init().take(k + 1).last() == (
                    self.init@[k as int].0@,
                    self.init@[k as int].1 as int,
                ));
            }
            match lookup_name(&self.species, &self.init[k].0) {
                Some(id) => {
                    let v = self.init[k].1;
                    let tv = #[verifier::truncate] (v as isize);
                    x0.set(id, tv);
                },
                None => {},
            }
            k += 1;
        }
        proof {
            assert(self.spec_init().take(self.init@.len() as int) =~= self.spec_init());
        }
        let ghost x0v = x0@;
        let mut g = match seed {
            Some(sd) => gillespie::Gillespie::new_with_seed(x0.as_slice(), sparse_mode, sd),
            None => gillespie::Gillespie::new(x0.as_slice(), sparse_mode),
        };
        let nsave: usize;
        let mut save_idx: Vec<usize> = Vec::new();
        match &var_names {
            Some(vn) => {
                let mut k: usize = 0;
                while k < vn.len()
                    invariant
                        save_idx@.len() == k,
                        k <= vn@.len(),
                        var_names matches Some(v) && v@ == vn@,
                        nsp == self.species@.len(),
                        forall|t: int| 0 <= t < k ==> #[trigger] save_idx@[t] < nsp,
                        forall|j: int|
                            0 <= j < k ==> spec_lookup_from(
                                self.species_names(),
                                (#[trigger] vn@[j])@,
                                0,
                            ) is Some,
                        forall|t: int|
                            0 <= t < k ==> #[trigger] save_idx@[t] == save_index(
                                self.species_names(),
                                var_names,
                                t,
                            ),
                    decreases vn@.len() - k,
                {
                    match lookup_name(&self.species, &vn[k]) {
                        Some(id) => {
                            save_idx.push(id);
                        },
                        None => {
                            proof {
                                assert(!self.names_known(vn@));
                                assert(match var_names {
                                    Some(v) => !self.names_known(v@),
                                    None => false,
                                });
                            }
                            let mut msg = String::from_str("Species ");
                            msg.append(vn[k].as_str());
                            msg.append(" is not known.");
                            return Err(msg);
                        },
                    }
                    k += 1;
                }
                proof {
                    assert(self.names_known(vn@));
                }
                nsave = save_idx.len();
            },
            None => {
                let mut k: usize = 0;
                while k < nsp
                    invariant
                        save_idx@.len() == k,
                        k <= nsp,
                        forall|t: int| 0 <= t < k ==> #[trigger] save_idx@[t] < nsp,
                        var_names is None,
                        forall|t: int|
                            0 <= t < k ==> #[trigger] save_idx@[t] == save_index(
                                self.species_names(),
                                var_names,
                                t,
                            ),
                    decreases nsp - k,
                {
                    save_idx.push(k);
                    k += 1;
                }
                nsave = save_idx.len();
            },
        }
        let mut k: usize = 0;
        while k < self.reactions.len()
            invariant
                g.wf(),
                g@.species.len() == nsp,
                nsp == self.species@.len(),
                nsp <= 0xFFFF_FFFFusize,
                g@.reactions.len() == k,
                k <= self.reactions@.len(),
                g@.species == x0v,
                g@.t == crate::ieee::POS_ZERO,
                g.sparse_mode() == sparse_mode,
                (match seed {
                    Some(sd) => g@.rng == crate::rng::seed_state(sd),
                    None => true,
                }),
                forall|j: int|
                    0 <= j < k ==> lowered_rel(
                        (#[trigger] self.spec_reactions()[j]).0,
                        self.spec_reactions()[j].1@,
                        self.spec_reactions()[j].2@,
                        self.species_names(),
                        params@,
                        sparse_mode,
                        nsp as int,
                        g@.reactions[j],
                    ),
                forall|j: int|
                    0 <= j < k ==> (match (#[trigger] self.spec_reactions()[j]).0 {
                        PRate::Expr(pe) => spec_resolve(
                            pe@,
                            self.species_names(),
                            param_views(params@),
                        ) is Some,
                        PRate::Lma(_, _) => true,
                    }),
            decreases self.reactions@.len() - k,
        {
            let tr = &self.reactions[k];
            let ghost nv = name_views(self.species@);
            let ghost rn = tr.1@;
            let ghost pn = tr.2@;
            let mut actions: Vec<isize> = Vec::new();
            let mut t: usize = 0;
            while t < nsp
                invariant
                    actions@.len() == t,
                    t <= nsp,
                    forall|i: int| 0 <= i < t ==> actions@[i] == 0isize,
                decreases nsp - t,
            {
                actions.push(0);
                t += 1;
            }
            proof {
                assert forall|i: int| 0 <= i < nsp implies actions@[i] == gillespie::crop(
                    0 - reactant_multiplicity(rn, nv, i, 0),
                ) by {
                    gillespie::lemma_crop_zero();
                }
            }
            let mut t: usize = 0;
            while t < tr.1.len()
                invariant
                    actions@.len() == nsp,
                    nsp == self.species@.len(),
                    t <= rn.len(),
                    rn == tr.1@,
                    nv == name_views(self.species@),
                    forall|i: int|
                        0 <= i < nsp ==> actions@[i] == gillespie::crop(
                            0 - reactant_multiplicity(rn, nv, i, t as int),
                        ),
                decreases tr.1@.len() - t,
            {
                // every reactant was registered when the reaction was added
                match lookup_name(&self.species, &tr.1[t]) {
                    Some(id) => {
                        let cur = actions[id];
                        proof {
                            gillespie::lemma_crop_add(
                                0 - reactant_multiplicity(rn, nv, id as int, t as int),
                                -1isize,
                            );
                        }
                        actions.set(id, cur.wrapping_sub(1));
                    },
                    None => {},
                }
                t += 1;
            }
            let mut t: usize = 0;
            while t < tr.2.len()
                invariant
                    actions@.len() == nsp,
                    nsp == self.species@.len(),
                    t <= pn.len(),
                    rn == tr.1@,
                    pn == tr.2@,
                    nv == name_views(self.species@),
                    forall|i: int|
                        0 <= i < nsp ==> actions@[i] == gillespie::crop(
                            reactant_multiplicity(pn, nv, i, t as int)
                                - reactant_multiplicity(rn, nv, i, rn.len() as int),
                        ),
                decreases tr.2@.len() - t,
            {
                match lookup_name(&self.species, &tr.2[t]) {
                    Some(id) => {
                        let cur = actions[id];
                        proof {
                            gillespie::lemma_crop_add(
                                reactant_multiplicity(pn, nv, id as int, t as int)
                                    - reactant_multiplicity(rn, nv, id as int, rn.len() as int),
                                1isize,
                            );
                        }
                        actions.set(id, cur.wrapping_add(1));
                    },
                    None => {},
                }
                t += 1;
            }
            proof {
                assert(actions@ =~= delta_seq(rn, pn, nv, nsp as int));
            }
            match tr.0.to_gillespie_rate(&self.species, &params) {
                Ok(grate) => {
                    let ghost gpre = g@.reactions;
                    g.add_reaction(grate, actions.as_slice());
                    proof {
                        assert(g@.reactions.drop_last() == gpre);
                        assert forall|j: int| 0 <= j < k + 1 implies lowered_rel(
                            (#[trigger] self.spec_reactions()[j]).0,
                            self.spec_reactions()[j].1@,
                            self.spec_reactions()[j].2@,
                            self.species_names(),
                            params@,
                            sparse_mode,
                            nsp as int,
                            g@.reactions[j],
                        ) by {
                            if j < k {
                                assert(g@.reactions[j] == gpre[j]);
                            } else {
                                assert(g@.reactions[j] == g@.reactions.last());
                                match tr.0 {
                                    PRate::Lma(c, lr) => {
                                        assert(grate matches gillespie::Rate::LMA(c2, e) && c2
                                            == c && e@ =~= exps_seq(
                                            lr@,
                                            self.species_names(),
                                            nsp as int,
                                        ));
                                    },
                                    PRate::Expr(_) => {},
                                }
                            }
                        }
                    }
                },
                Err(m) => {
                    proof {
                        assert(!self.rates_resolve(params@));
                    }
                    return Err(m);
                },
            }
            k += 1;
        }
        proof {
            assert(self.rates_resolve(params@));
        }
        let ghost st0g = g@;
        let mut times: Vec<u64> = Vec::new();
        let mut rows: Vec<Vec<isize>> = Vec::new();
        if nb_steps > 0 {
            let mut i: usize = 0;
            while i <= nb_steps
                invariant_except_break
                    times@.len() == i,
                    rows@.len() == i,
                    i == 0 ==> g@ == st0g,
                    i > 0 ==> g@ == grid_walk(st0g, tmax, nb_steps, i - 1),
                invariant
                    i <= nb_steps,
                    nb_steps > 0,
                    g.wf(),
                    g@.species.len() == nsp,
                    nsave == save_idx@.len(),
                    forall|t: int| 0 <= t < nsave ==> #[trigger] save_idx@[t] < nsp,
                    forall|t: int| 0 <= t < i ==> #[trigger] times@[t] == grid_time(
                        tmax,
                        nb_steps,
                        t,
                    ),
                    forall|t: int| 0 <= t < i ==> (#[trigger] rows@[t])@.len() == nsave,
                    forall|t: int, u: int|
                        0 <= t < i && 0 <= u < nsave ==> (#[trigger] rows@[t]@[u]) == grid_walk(
                            st0g,
                            tmax,
                            nb_steps,
                            t,
                        ).species[save_idx@[u] as int],
                ensures
                    times@.len() == nb_steps + 1,
                    rows@.len() == nb_steps + 1,
                    forall|t: int| 0 <= t < times@.len() ==> #[trigger] times@[t] == grid_time(
                        tmax,
                        nb_steps,
                        t,
                    ),
                    forall|t: int| 0 <= t < rows@.len() ==> (#[trigger] rows@[t])@.len() == nsave,
                    forall|t: int, u: int|
                        0 <= t < rows@.len() && 0 <= u < nsave ==> (#[trigger] rows@[t]@[u])
                            == grid_walk(st0g, tmax, nb_steps, t).species[save_idx@[u] as int],
                decreases nb_steps - i,
            {
                let t = div_bits(
                    mul_bits(tmax, of_int_bits(i as i128)),
                    of_int_bits(nb_steps as i128),
                );
                times.push(t);
                g.advance_until(t);
                proof {
                    assert(g@ == grid_walk(st0g, tmax, nb_steps, i as int));
                }
                let ghost gs = g@.species;
                let mut row: Vec<isize> = Vec::new();
                let mut u: usize = 0;
                while u < nsave
                    invariant
                        row@.len() == u,
                        u <= nsave,
                        nsave == save_idx@.len(),
                        forall|t2: int| 0 <= t2 < nsave ==> #[trigger] save_idx@[t2] < nsp,
                        g@.species.len() == nsp,
                        g@.species == gs,
                        forall|u2: int|
                            0 <= u2 < u ==> #[trigger] row@[u2] == gs[save_idx@[u2] as int],
                    decreases nsave - u,
                {
                    row.push(g.get_species(save_idx[u]));
                    u += 1;
                }
                rows.push(row);
                if i == nb_steps {
                    break;
                }
                i += 1;
            }
        } else {
            let nrx = g.nb_reactions();
            let mut scratch: Vec<u64> = Vec::new();
            let mut t: usize = 0;
            while t < nrx
                invariant
                    scratch@.len() == t,
                    t <= nrx,
                decreases nrx - t,
            {
                scratch.push(crate::ieee::QNAN);
                t += 1;
            }
            let mut row0: Vec<isize> = Vec::new();
            let mut u: usize = 0;
            while u < nsave
                invariant
                    row0@.len() == u,
                    u <= nsave,
                    nsave == save_idx@.len(),
                    forall|t2: int| 0 <= t2 < nsave ==> #[trigger] save_idx@[t2] < nsp,
                    g@.species.len() == nsp,
                    g@ == st0g,
                    forall|u2: int|
                        0 <= u2 < u ==> #[trigger] row0@[u2] == st0g.species[save_idx@[u2] as int],
                decreases nsave - u,
            {
                row0.push(g.get_species(save_idx[u]));
                u += 1;
            }
            times.push(g.get_time());
            rows.push(row0);
            let mut fuel: u64 = u64::MAX;
            loop
                invariant
                    g.wf(),
                    g@.species.len() == nsp,
                    scratch@.len() == g@.reactions.len(),
                    nsave == save_idx@.len(),
                    forall|t2: int| 0 <= t2 < nsave ==> #[trigger] save_idx@[t2] < nsp,
                    times@.len() == rows@.len(),
                    times@.len() >= 1,
                    forall|t2: int| 0 <= t2 < rows@.len() ==> (#[trigger] rows@[t2])@.len()
                        == nsave,
                    times@.len() == (u64::MAX - fuel) + 1,
                    g@ == trace_walk(st0g, times@.len() - 1),
                    forall|t2: int|
                        0 <= t2 < times@.len() ==> #[trigger] times@[t2] == trace_walk(
                            st0g,
                            t2,
                        ).t,
                    forall|t2: int, u2: int|
                        0 <= t2 < rows@.len() && 0 <= u2 < nsave ==> (#[trigger] rows@[t2]@[u2])
                            == trace_walk(st0g, t2).species[save_idx@[u2] as int],
                    forall|t2: int|
                        0 <= t2 < times@.len() - 1 ==> crate::ieee::f_lt(
                            #[trigger] times@[t2],
                            tmax,
                        ),
                ensures
                    times@.len() == rows@.len(),
                    times@.len() >= 1,
                    forall|t2: int| 0 <= t2 < rows@.len() ==> (#[trigger] rows@[t2])@.len()
                        == nsave,
                    forall|t2: int|
                        0 <= t2 < times@.len() ==> #[trigger] times@[t2] == trace_walk(
                            st0g,
                            t2,
                        ).t,
                    forall|t2: int, u2: int|
                        0 <= t2 < rows@.len() && 0 <= u2 < nsave ==> (#[trigger] rows@[t2]@[u2])
                            == trace_walk(st0g, t2).species[save_idx@[u2] as int],
                    forall|t2: int|
                        0 <= t2 < times@.len() - 1 ==> crate::ieee::f_lt(
                            #[trigger] times@[t2],
                            tmax,
                        ),
                    times@.len() <= u64::MAX ==> !crate::ieee::f_lt(times@.last(), tmax),
                decreases fuel,
            {
                if fuel == 0 {
                    proof {
                        assert(times@.len() == u64::MAX + 1);
                    }
                    break;
                }
                if !lt_bits(g.get_time(), tmax) {
                    break;
                }
                fuel = fuel - 1;
                g._advance_one_reaction(&mut scratch);
                times.push(g.get_time());
                let ghost gs2 = g@.species;
                let mut row: Vec<isize> = Vec::new();
                let mut u: usize = 0;
                while u < nsave
                    invariant
                        row@.len() == u,
                        u <= nsave,
                        nsave == save_idx@.len(),
                        forall|t2: int| 0 <= t2 < nsave ==> #[trigger] save_idx@[t2] < nsp,
                        g@.species.len() == nsp,
                        g@.species == gs2,
                        forall|u2: int|
                            0 <= u2 < u ==> #[trigger] row@[u2] == gs2[save_idx@[u2] as int],
                    decreases nsave - u,
                {
                    row.push(g.get_species(save_idx[u]));
                    u += 1;
                }
                rows.push(row);
            }
        }
        // pair each requested name with its column
        let ghost rowsv = rows@;
        let ghost timesv = times@;
        let names_out: Vec<String> = match var_names {
            Some(vn) => vn,
            None => {
                let mut ns: Vec<String> = Vec::new();
                let mut k: usize = 0;
                while k < self.species.len()
                    invariant
                        ns@.len() == k,
                        k <= self.species@.len(),
                        forall|t: int| 0 <= t < k ==> (#[trigger] ns@[t])@ == self.species@[t]@,
                    decreases self.species@.len() - k,
                {
                    ns.push(self.species[k].clone());
                    k += 1;
                }
                ns
            },
        };
        proof {
            assert(forall|u: int|
                0 <= u < names_out@.len() ==> (#[trigger] names_out@[u])@ == (match var_names {
                    Some(vn) => vn@[u]@,
                    None => self.species_names()[u],
                }));
        }
        let mut out: Vec<(String, Vec<isize>)> = Vec::new();
        let mut u: usize = 0;
        while u < names_out.len()
            invariant
                out@.len() == u,
                u <= names_out@.len(),
                u <= nsave || names_out@.len() <= nsave,
                names_out@.len() == nsave,
                times@.len() == rows@.len(),
                rows@ == rowsv,
                times@ == timesv,
                forall|t2: int| 0 <= t2 < rows@.len() ==> (#[trigger] rows@[t2])@.len() == nsave,
                forall|t2: int| 0 <= t2 < u ==> (#[trigger] out@[t2]).1@.len() == times@.len(),
                forall|u2: int|
                    0 <= u2 < u ==> (#[trigger] out@[u2]).0@ == names_out@[u2]@,
                forall|u2: int, t2: int|
                    0 <= u2 < u && 0 <= t2 < rows@.len() ==> (#[trigger] out@[u2].1@[t2])
                        == rows@[t2]@[u2],
            decreases names_out@.len() - u,
        {
            let mut col: Vec<isize> = Vec::new();
            let mut t: usize = 0;
            while t < rows.len()
                invariant
                    col@.len() == t,
                    t <= rows@.len(),
                    u < nsave,
                    rows@ == rowsv,
                    forall|t2: int| 0 <= t2 < rows@.len() ==> (#[trigger] rows@[t2])@.len()
                        == nsave,
                    forall|t2: int| 0 <= t2 < t ==> #[trigger] col@[t2] == rows@[t2]@[u as int],
                decreases rows@.len() - t,
            {
                let rowref = &rows[t];
                col.push(rowref[u]);
                t += 1;
            }
            out.push((names_out[u].clone(), col));
            u += 1;
        }
        proof {
            if nb_steps > 0 {
                match seed {
                    Some(sd) => {
                        let rs = st0g.reactions;
                        let st0 = gillespie::EngineState {
                            species: x0_of(self.species_names(), self.spec_init()),
                            t: crate::ieee::POS_ZERO,
                            reactions: rs,
                            rng: crate::rng::seed_state(sd),
                        };
                        assert(st0 =~= st0g);
                        assert forall|i: int, u2: int|
                            0 <= i <= nb_steps && 0 <= u2 < out@.len() implies (
                        #[trigger] out@[u2].1@[i]) == grid_walk(st0, tmax, nb_steps, i).species[
                        save_index(self.species_names(), var_names, u2)] by {
                            assert(out@[u2].1@[i] == rows@[i]@[u2]);
                            assert(rows@[i]@[u2] == grid_walk(st0g, tmax, nb_steps, i).species[
                            save_idx@[u2] as int]);
                            assert(save_idx@[u2] as int == save_index(
                                self.species_names(),
                                var_names,
                                u2,
                            ));
                        }
                        assert(rs.len() == self.spec_nb_reactions());
                    },
                    None => {},
                }
            }
        }
        Ok((times, out))
    }
}


/// The summary's first line: the species and reaction counts.
pub open spec fn summary_header(s: int, r: int) -> Seq<char> {
    dec_text(s) + " species and "@ + dec_text(r) + " reactions\n"@
}

/// The decimal digits of a positive integer, high digit first (empty
/// for zero and below).
pub open spec fn dec_digits(n: int) -> Seq<char>
    decreases n,
{
    if n <= 0 {
        Seq::empty()
    } else {
        dec_digits(n / 10).push(((48 + n % 10) as u8) as char)
    }
}

/// A non-negative integer in decimal.
pub open spec fn dec_text(n: int) -> Seq<char> {
    if n == 0 {
        seq!['0']
    } else {
        dec_digits(n)
    }
}

/// Renders `n` in decimal.
fn usize_to_text(n: usize) -> (r: String)
    ensures
        r@ == dec_text(n as int),
        r@.len() > 0,
{
    if n == 0 {
        let z = String::from_str("0");
        proof {
            reveal_strlit("0");
        }
        return z;
    }
    let mut digits: Vec<char> = Vec::new();
    let mut m = n;
    while m > 0
        invariant
            dec_digits(n as int) =~= dec_digits(m as int) + digits@.reverse(),
            m == 0 ==> digits@.len() >= 1,
            n > 0,
        decreases m,
    {
        let d = m % 10;
        let ghost pre = digits@;
        digits.push(((48 + d as u8) as u8) as char);
        proof {
            assert(digits@.reverse() =~= seq![(((48 + (m as int) % 10) as u8) as char)]
                + pre.reverse());
            assert(dec_digits(m as int) =~= dec_digits((m as int) / 10).push(
                ((48 + (m as int) % 10) as u8) as char,
            ));
            assert(dec_digits((m as int) / 10).push(((48 + (m as int) % 10) as u8) as char)
                + pre.reverse() =~= dec_digits((m as int) / 10) + digits@.reverse());
        }
        m = m / 10;
    }
    let ghost full = digits@;
    let mut out = String::new();
    let mut k = digits.len();
    while k > 0
        invariant
            k <= digits@.len(),
            digits@ == full,
            digits@.len() >= 1,
            out@.len() == digits@.len() - k,
            forall|i: int| 0 <= i < out@.len() ==> out@[i] == full[full.len() - 1 - i],
        decreases k,
    {
        k = k - 1;
        crate::expr::push_char(&mut out, digits[k]);
    }
    proof {
        assert(out@ =~= full.reverse());
        assert(dec_digits(n as int) =~= dec_digits(0) + full.reverse());
        assert(dec_digits(n as int) =~= full.reverse());
    }
    out
}

impl Gillespie {
    /// A readable summary: the header with the species and reaction
    /// counts, then one line per reaction in insertion order,
    /// `reactants joined by ' + '` ` --> ` `products joined by ' + '`
    /// ` @ ` `rate text`, each ended by a newline.  `None` only if a
    /// rate constant found no round-tripping decimal rendering, which
    /// does not happen for binary64 values.
    pub fn to_text(&self) -> (r: Option<String>)
        ensures
            r matches Some(t) ==> ({
                let header = summary_header(
                    self.species_names().len() as int,
                    self.spec_nb_reactions() as int,
                );
                t@.len() >= header.len() && t@.subrange(0, header.len() as int) == header
            }),
    {
        let ghost header = summary_header(
            self.species_names().len() as int,
            self.spec_nb_reactions() as int,
        );
        let mut out = usize_to_text(self.species.len());
        out.append(" species and ");
        let m = usize_to_text(self.reactions.len());
        out.append(m.as_str());
        out.append(" reactions\n");
        proof {
            assert(out@ =~= header);
        }
        let mut k: usize = 0;
        while k < self.reactions.len()
            invariant
                out@.len() >= header.len(),
                out@.subrange(0, header.len() as int) == header,
            decreases self.reactions@.len() - k,
        {
            let tr = &self.reactions[k];
            let mut t: usize = 0;
            while t < tr.1.len()
                invariant
                    out@.len() >= header.len(),
                    out@.subrange(0, header.len() as int) == header,
                decreases tr.1@.len() - t,
            {
                if t > 0 {
                    out.append(" + ");
                }
                out.append(tr.1[t].as_str());
                proof {
                    assert(out@.subrange(0, header.len() as int) =~= header);
                }
                t += 1;
            }
            out.append(" --> ");
            let mut t: usize = 0;
            while t < tr.2.len()
                invariant
                    out@.len() >= header.len(),
                    out@.subrange(0, header.len() as int) == header,
                decreases tr.2@.len() - t,
            {
                if t > 0 {
                    out.append(" + ");
                }
                out.append(tr.2[t].as_str());
                proof {
                    assert(out@.subrange(0, header.len() as int) =~= header);
                }
                t += 1;
            }
            proof {
                assert(out@.subrange(0, header.len() as int) =~= header);
            }
            out.append(" @ ");
            match tr.0.to_text() {
                Some(rt) => {
                    out.append(rt.as_str());
                },
                None => {
                    return None;
                },
            }
            out.append("\n");
            proof {
                assert(out@.subrange(0, header.len() as int) =~= header);
            }
            k += 1;
        }
        Some(out)
    }
}

} // verus!
