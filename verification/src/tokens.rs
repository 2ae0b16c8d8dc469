//! The tokens of the pool, and the column that stands for each of them.
use vstd::prelude::*;
use crate::address::Address;
use crate::float::F64;

verus! {

/// What is known of a token.
#[derive(Debug)]
pub struct TokenDetails {
    pub name: String,
    pub price_source: Address,
    /// The column of the token.
    pub order: usize,
    /// The number of smallest units in one token.
    pub decimals: F64,
    /// The number of smallest units in one unit of price.
    pub price_decimals: F64,
}

impl TokenDetails {
    pub fn new(
        name: String,
        price_source: Address,
        order: usize,
        decimals: F64,
        price_decimals: F64,
    ) -> (r: TokenDetails)
        ensures
            r.name == name,
            r.price_source == price_source,
            r.order == order,
            r.decimals == decimals,
            r.price_decimals == price_decimals,
    {
        TokenDetails { name, price_source, order, decimals, price_decimals }
    }
}

/// Whether one of the entries is filed under an address.
pub open spec fn lists(entries: Seq<(Address, TokenDetails)>, token: Address) -> bool {
    exists|i: int| 0 <= i < entries.len() && #[trigger] entries[i].0 == token
}

/// Where an address is filed, if it is.
pub open spec fn place_of(entries: Seq<(Address, TokenDetails)>, token: Address) -> int {
    choose|i: int| 0 <= i < entries.len() && #[trigger] entries[i].0 == token
}

/// Whether no address is filed twice.
pub open spec fn addresses_distinct(entries: Seq<(Address, TokenDetails)>) -> bool {
    forall|i: int, j: int|
        0 <= i < j < entries.len() ==> #[trigger] entries[i].0 != #[trigger] entries[j].0
}

/// The column of a token, if it is known.
pub open spec fn order_of(entries: Seq<(Address, TokenDetails)>, token: Address) -> Option<usize> {
    if lists(entries, token) {
        Some(entries[place_of(entries, token)].1.order)
    } else {
        None
    }
}

/// The entries after a token was filed: an entry for the same address is
/// replaced.
pub open spec fn filed(
    entries: Seq<(Address, TokenDetails)>,
    token: Address,
    details: TokenDetails,
) -> Seq<(Address, TokenDetails)> {
    if lists(entries, token) {
        entries.update(place_of(entries, token), (token, details))
    } else {
        entries.push((token, details))
    }
}

/// The known tokens by address.
#[derive(Debug)]
pub struct Tokens {
    entries: Vec<(Address, TokenDetails)>,
}

impl View for Tokens {
    type V = Seq<(Address, TokenDetails)>;

    closed spec fn view(&self) -> Seq<(Address, TokenDetails)> {
        self.entries@
    }
}

impl Tokens {
    /// No address is filed twice.
    #[verifier::type_invariant]
    spec fn filed_once(self) -> bool {
        addresses_distinct(self.entries@)
    }

    /// No tokens.
    pub fn new() -> (r: Tokens)
        ensures
            r@.len() == 0,
    {
        Tokens { entries: Vec::new() }
    }

    /// The number of tokens.
    pub fn len(&self) -> (r: usize)
        ensures
            r == self@.len(),
            addresses_distinct(self@),
    {
        proof {
            use_type_invariant(self);
        }
        self.entries.len()
    }

    /// The address and the details of the `i`-th entry.
    pub fn entry(&self, i: usize) -> (r: &(Address, TokenDetails))
        requires
            i < self@.len(),
        ensures
            *r == self@[i as int],
    {
        &self.entries[i]
    }

    /// Where a token is filed.
    fn position(&self, token: &Address) -> (r: Option<usize>)
        ensures
            match r {
                Some(i) => lists(self@, *token) && i == place_of(self@, *token) && i < self@.len(),
                None => !lists(self@, *token),
            },
    {
        proof {
            use_type_invariant(self);
        }
        let mut i: usize = 0;
        while i < self.entries.len()
            invariant
                i <= self@.len(),
                addresses_distinct(self@),
                forall|j: int| 0 <= j < i ==> #[trigger] self@[j].0 != *token,
            decreases self@.len() - i,
        {
            if self.entries[i].0 == *token {
                proof {
                    let ghost at = place_of(self@, *token);
                    assert(self@[i as int].0 == *token);
                    assert(self@[at].0 == *token);
                    assert(at == i);
                }
                return Some(i);
            }
            i = i + 1;
        }
        None
    }

    /// The details of a token.
    pub fn get(&self, token: &Address) -> (r: Option<&TokenDetails>)
        ensures
            match r {
                Some(details) => lists(self@, *token) && *details == self@[place_of(
                    self@,
                    *token,
                )].1,
                None => !lists(self@, *token),
            },
    {
        match self.position(token) {
            Some(i) => Some(&self.entries[i].1),
            None => None,
        }
    }

    /// The column of a token.
    pub fn order(&self, token: &Address) -> (r: Option<usize>)
        ensures
            r == order_of(self@, *token),
    {
        match self.position(token) {
            Some(i) => Some(self.entries[i].1.order),
            None => None,
        }
    }

    /// Files a token; an entry for the same address is replaced.
    pub fn insert(&mut self, token: Address, details: TokenDetails)
        ensures
            final(self)@ == filed(old(self)@, token, details),
    {
        proof {
            use_type_invariant(&*self);
        }
        let found: Option<usize> = self.position(&token);
        let mut entries: Vec<(Address, TokenDetails)> = Vec::new();
        std::mem::swap(&mut self.entries, &mut entries);
        let ghost before = entries@;
        match found {
            Some(i) => {
                entries.set(i, (token, details));
                assert forall|a: int, b: int| 0 <= a < b < entries@.len() implies #[trigger] entries@[a].0
                    != #[trigger] entries@[b].0 by {
                    assert(before[a].0 != before[b].0);
                    assert(before[i as int].0 == token);
                }
            },
            None => {
                entries.push((token, details));
                assert forall|a: int, b: int| 0 <= a < b < entries@.len() implies #[trigger] entries@[a].0
                    != #[trigger] entries@[b].0 by {
                    assert(before[a].0 != token);
                    if b < before.len() {
                        assert(before[a].0 != before[b].0);
                    }
                }
            },
        }
        self.entries = entries;
    }
}

/// What the pool and the price oracle reported of a token.
#[derive(Debug)]
pub struct FoundToken {
    pub symbol: String,
    pub address: Address,
    pub price_source: Address,
    pub decimals: F64,
    pub price_decimals: F64,
}

/// The details of a reported token at a column.
pub open spec fn details_of(found: FoundToken, order: usize) -> TokenDetails {
    TokenDetails {
        name: found.symbol,
        price_source: found.price_source,
        order,
        decimals: found.decimals,
        price_decimals: found.price_decimals,
    }
}

/// The tokens that a report lists: each is filed with its place in the report
/// as its column, so that of two with one address the later stands.
pub open spec fn listing(found: Seq<FoundToken>) -> Seq<(Address, TokenDetails)>
    decreases found.len(),
{
    if found.len() == 0 {
        Seq::empty()
    } else {
        filed(
            listing(found.drop_last()),
            found.last().address,
            details_of(found.last(), (found.len() - 1) as usize),
        )
    }
}

/// The tokens of the pool, from what was reported of each.
pub fn setup(found: Vec<FoundToken>) -> (r: Tokens)
    ensures
        r@ == listing(found@),
        addresses_distinct(r@),
{
    let total: usize = found.len();
    let ghost all = found@;
    let mut rest = found;
    let mut tokens: Tokens = Tokens::new();
    let mut order: usize = 0;
    assert(tokens@ =~= listing(all.take(0)));
    assert(rest@ =~= all.skip(0));
    while order < total
        invariant
            order <= total == all.len(),
            tokens@ == listing(all.take(order as int)),
            rest@ == all.skip(order as int),
        decreases total - order,
    {
        let FoundToken { symbol, address, price_source, decimals, price_decimals } = rest.remove(0);
        assert(all.take(order + 1).drop_last() =~= all.take(order as int));
        assert(rest@ =~= all.skip(order + 1));
        tokens.insert(
            address,
            TokenDetails::new(symbol, price_source, order, decimals, price_decimals),
        );
        order = order + 1;
    }
    assert(all.take(order as int) =~= all);
    proof {
        use_type_invariant(&tokens);
    }
    tokens
}

} // verus!
