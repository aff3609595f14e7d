//! Listen addresses.

use vstd::prelude::*;
use vstd::string::{StrSliceExecFns, StringExecFns};

verus! {

/// A listen address with its host filled in: an address that starts with a colon
/// names a port of every interface.
pub open spec fn normalized(addr: Seq<char>) -> Seq<char> {
    if addr.len() > 0 && addr[0] == ':' {
        "0.0.0.0"@ + addr
    } else {
        addr
    }
}

/// Fills in the host of a listen address that has none.
pub fn normalize_addr(addr: &str) -> (full: String)
    ensures
        full@ == normalized(addr@),
{
    if !addr.is_empty() && addr.get_char(0) == ':' {
        let mut full = "0.0.0.0".to_owned();
        full.append(addr);
        full
    } else {
        addr.to_owned()
    }
}

/// An address that was filled in is complete: filling it in again changes nothing.
pub proof fn law_normalized_once(addr: Seq<char>)
    ensures
        normalized(normalized(addr)) == normalized(addr),
{
    reveal_strlit("0.0.0.0");
}

/// An address that starts with a colon gets the host that stands for every interface in
/// front, and keeps all of its own. Any other address stays as it is.
pub proof fn law_address_is_kept(addr: Seq<char>)
    ensures
        addr.len() > 0 && addr[0] == ':' ==> {
            &&& normalized(addr).take(7) == seq!['0', '.', '0', '.', '0', '.', '0']
            &&& normalized(addr).skip(7) == addr
        },
        addr.len() == 0 || addr[0] != ':' ==> normalized(addr) == addr,
{
    reveal_strlit("0.0.0.0");
    if addr.len() > 0 && addr[0] == ':' {
        assert(normalized(addr).take(7) =~= seq!['0', '.', '0', '.', '0', '.', '0']);
        assert(normalized(addr).skip(7) =~= addr);
    }
}

} // verus!
