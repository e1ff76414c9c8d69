//! The result of lowering: ordered outputs and party bookkeeping.

use vstd::prelude::*;
use vstd::string::StringExecFns;
use crate::table::Table;
use crate::term::Term;

verus! {

/// The digits of `n` in base ten.
pub open spec fn decimal(n: nat) -> Seq<char>
    decreases n,
{
    let digit = seq!['0', '1', '2', '3', '4', '5', '6', '7', '8', '9'][(n % 10) as int];
    if n < 10 {
        seq![digit]
    } else {
        decimal(n / 10).push(digit)
    }
}

/// The name of the party with the given number.
pub open spec fn party_label(i: nat) -> Seq<char> {
    "Party "@ + decimal(i)
}

/// Relies on std's `format!`: `{}` writes an unsigned integer in base ten,
/// without padding.
#[verifier::external_body]
fn decimal_string(i: u8) -> (r: String)
    ensures
        r@ == decimal(i as nat),
{
    format!("{}", i)
}

/// The name of party `i`: "Party " and its number.
fn party_name(i: u8) -> (r: String)
    ensures
        r@ == party_label(i as nat),
{
    let mut s = String::from_str("Party ");
    let digits = decimal_string(i);
    s.append(digits.as_str());
    s
}

/// Parties, and the owner of each declared input.
pub struct ComputationMetadata {
    /// Party names, in order; a party id is a position here.
    pub parties: Vec<String>,
    /// Input name to owning party; `None` is a public input.
    pub inputs: Table<Option<u8>>,
}

/// Every declared input is public or owned by a party that exists.
pub open spec fn inputs_in_range(inputs: Map<Seq<char>, Option<u8>>, n: nat) -> bool {
    forall|k: Seq<char>| #[trigger]
        inputs.contains_key(k) ==> (inputs[k] matches Some(p) ==> (p as nat) < n)
}

impl ComputationMetadata {
    pub open spec fn wf(&self) -> bool {
        inputs_in_range(self.inputs@, self.parties@.len())
    }

    /// Metadata for `n` parties named "Party 0" to "Party n-1", with no inputs.
    pub fn with_parties(n: u8) -> (r: ComputationMetadata)
        ensures
            r.parties@.len() == n,
            forall|i: int| 0 <= i < n ==> #[trigger] r.parties@[i]@ == party_label(i as nat),
            r.inputs@ == Map::<Seq<char>, Option<u8>>::empty(),
            r.wf(),
    {
        let mut parties: Vec<String> = Vec::new();
        let mut i: u8 = 0;
        while i < n
            invariant
                i <= n,
                parties@.len() == i,
                forall|j: int| 0 <= j < i ==> #[trigger] parties@[j]@ == party_label(j as nat),
            decreases n - i,
        {
            parties.push(party_name(i));
            i = i + 1;
        }
        ComputationMetadata { parties, inputs: Table::new() }
    }

    /// Adds a party at the end; its id is the previous number of parties.
    pub fn add_party(&mut self, name: String)
        ensures
            final(self).parties@ == old(self).parties@.push(name),
            final(self).inputs@ == old(self).inputs@,
    {
        self.parties.push(name);
    }

    /// Declares an input owned by `party`, or public where `party` is `None`.
    pub fn new_input(&mut self, name: String, party: Option<u8>)
        ensures
            final(self).parties@ == old(self).parties@,
            final(self).inputs@ == old(self).inputs@.insert(name@, party),
    {
        self.inputs.insert(name, party);
    }
}

/// Output terms in declared order, and the metadata of their inputs.
pub struct Computation {
    pub outputs: Vec<Term>,
    pub metadata: ComputationMetadata,
}

} // verus!
