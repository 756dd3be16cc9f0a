use vstd::prelude::*;
use vstd::string::*;
use vstd::utf8::*;

verus! {

/// A gas species of the catalog. Two descriptors name the same species exactly
/// when their `id`s are the same text.
#[derive(Clone, Copy, Debug, PartialEq, Eq, Hash)]
pub struct GasType {
    /// Short identifier, the key by which a species is found.
    pub id: &'static str,
    /// Display name.
    pub name: &'static str,
    /// Energy in joules needed to heat one mole by one kelvin; higher is harder
    /// to heat or cool.
    pub specific_heat: usize,
    /// How much the gas accelerates a fusion reaction.
    pub fusion_power: isize,
}

/// Whether two strings hold the same text.
pub fn same_text(a: &str, b: &str) -> (same: bool)
    ensures
        same == (a@ == b@),
{
    let x = a.as_bytes();
    let y = b.as_bytes();
    if x.len() != y.len() {
        return false;
    }
    let n: usize = x.len();
    let mut i: usize = 0;
    while i < n
        invariant
            i <= n,
            n == x@.len(),
            n == y@.len(),
            x@ == a.spec_bytes(),
            y@ == b.spec_bytes(),
            forall|j: int| 0 <= j < i ==> x@[j] == y@[j],
        decreases n - i,
    {
        if x[i] != y[i] {
            return false;
        }
        i = i + 1;
    }
    proof {
        assert(x@ =~= y@);
        encode_utf8_decode_utf8(a@);
        encode_utf8_decode_utf8(b@);
    }
    true
}

impl GasType {
    /// The key of the species: the text of its `id`.
    pub open spec fn key(&self) -> Seq<char> {
        self.id@
    }

    /// Whether `other` names the same species.
    pub fn same_species(&self, other: &GasType) -> (same: bool)
        ensures
            same == (self.key() == other.key()),
    {
        same_text(self.id, other.id)
    }

    /// The display form: the name, then the id in round brackets.
    pub fn to_string(&self) -> (text: String)
        ensures
            text@ == self.name@ + " ("@ + self.id@ + ")"@,
    {
        let mut text = String::from_str(self.name);
        text.append(" (");
        text.append(self.id);
        text.append(")");
        text
    }
}

} // verus!
