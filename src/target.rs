//! Choosing the one address a run probes from the candidates that name
//! resolution produced.
use vstd::prelude::*;

verus! {

#[derive(Clone, Copy, Debug, PartialEq, Eq, Structural)]
pub enum Family {
    V4,
    V6,
}

/// An IP address in its numeric form: an IPv4 address as its 32 bits, an
/// IPv6 address as its 128 bits, most significant byte first.
#[derive(Clone, Copy, Debug, PartialEq, Eq, Structural)]
pub enum IpAddress {
    V4(u32),
    V6(u128),
}

/// A socket address: what one connection attempt is made to.
#[derive(Clone, Copy, Debug, PartialEq, Eq, Structural)]
pub struct Endpoint {
    pub ip: IpAddress,
    pub port: u16,
}

/// Why a run could not be set up.
#[derive(Clone, Copy, Debug, PartialEq, Eq, Structural)]
pub enum SetupError {
    /// The host resolved to no address at all.
    Resolution,
    /// A family was forced and no candidate belongs to it.
    FamilyUnsupported,
}

impl IpAddress {
    pub open spec fn spec_family(self) -> Family {
        match self {
            IpAddress::V4(_) => Family::V4,
            IpAddress::V6(_) => Family::V6,
        }
    }

    pub fn family(&self) -> (r: Family)
        ensures
            r == self.spec_family(),
    {
        match self {
            IpAddress::V4(_) => Family::V4,
            IpAddress::V6(_) => Family::V6,
        }
    }
}

/// Index of the first candidate at or after `i` whose address is of family `f`.
pub open spec fn first_of_family(c: Seq<Endpoint>, f: Family, i: int) -> Option<int>
    decreases c.len() - i,
{
    if i < 0 || i >= c.len() {
        None
    } else if c[i].ip.spec_family() == f {
        Some(i)
    } else {
        first_of_family(c, f, i + 1)
    }
}

/// The endpoint a run uses: with a forced family the first candidate of that
/// family, otherwise the first candidate in resolver order.
pub open spec fn selection(c: Seq<Endpoint>, f: Option<Family>) -> Result<Endpoint, SetupError> {
    if c.len() == 0 {
        Err(SetupError::Resolution)
    } else {
        match f {
            None => Ok(c[0]),
            Some(fam) => match first_of_family(c, fam, 0) {
                Some(i) => Ok(c[i]),
                None => Err(SetupError::FamilyUnsupported),
            },
        }
    }
}

/// With a forced family that no candidate has, the run is refused with
/// `FamilyUnsupported`, however many candidates of the other family there are.
pub proof fn lemma_forced_family_absent(c: Seq<Endpoint>, f: Family)
    requires
        c.len() > 0,
        forall|i: int| 0 <= i < c.len() ==> (#[trigger] c[i]).ip.spec_family() != f,
    ensures
        selection(c, Some(f)) == Err::<Endpoint, SetupError>(SetupError::FamilyUnsupported),
{
    lemma_no_match_from(c, f, 0);
}

proof fn lemma_no_match_from(c: Seq<Endpoint>, f: Family, i: int)
    requires
        0 <= i,
        forall|j: int| 0 <= j < c.len() ==> (#[trigger] c[j]).ip.spec_family() != f,
    ensures
        first_of_family(c, f, i) is None,
    decreases c.len() - i,
{
    if i < c.len() {
        lemma_no_match_from(c, f, i + 1);
    }
}

/// Picks the endpoint to probe among resolved candidates, honouring a
/// forced address family.
pub fn select_target(candidates: &Vec<Endpoint>, family: Option<Family>) -> (r: Result<
    Endpoint,
    SetupError,
>)
    ensures
        r == selection(candidates@, family),
{
    let n = candidates.len();
    if n == 0 {
        return Err(SetupError::Resolution);
    }
    match family {
        None => Ok(candidates[0]),
        Some(fam) => {
            let mut i: usize = 0;
            while i < n
                invariant
                    i <= n,
                    n == candidates.len(),
                    family == Some(fam),
                    first_of_family(candidates@, fam, 0) == first_of_family(
                        candidates@,
                        fam,
                        i as int,
                    ),
                decreases n - i,
            {
                if candidates[i].ip.family() == fam {
                    assert(first_of_family(candidates@, fam, i as int) == Some(i as int));
                    return Ok(candidates[i]);
                }
                i = i + 1;
            }
            Err(SetupError::FamilyUnsupported)
        },
    }
}

} // verus!
