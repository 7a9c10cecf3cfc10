//! Resolution of asset names: every fetched asset lives under the fixed
//! `assets` base path of the active origin.  The network retrieval itself
//! stays with the embedding program; this module owns the address
//! computation.

use vstd::prelude::*;
use crate::text::subvec;

verus! {

/// The bytes of `/assets/`, the fixed base path under the origin.
pub open spec fn assets_prefix() -> Seq<u8> {
    seq![47u8, 97u8, 115u8, 115u8, 101u8, 116u8, 115u8, 47u8]
}

/// The address of an asset: `<origin>/assets/<relative-name>`.  No other
/// addressing scheme is supported.
pub fn format_url(origin: &Vec<u8>, file_name: &Vec<u8>) -> (r: Vec<u8>)
    ensures
        r@ == origin@ + assets_prefix() + file_name@,
{
    let mut out: Vec<u8> = subvec(origin, 0, origin.len());
    proof {
        assert(out@ =~= origin@);
    }
    out.push(47);
    out.push(97);
    out.push(115);
    out.push(115);
    out.push(101);
    out.push(116);
    out.push(115);
    out.push(47);
    proof {
        assert(out@ =~= origin@ + assets_prefix());
    }
    let ghost mid = out@;
    let n: usize = file_name.len();
    let mut i: usize = 0;
    while i < n
        invariant
            n == file_name@.len(),
            0 <= i <= n,
            out@ =~= mid + file_name@.take(i as int),
        decreases n - i,
    {
        out.push(file_name[i]);
        proof {
            assert(out@ =~= mid + file_name@.take(i as int + 1));
        }
        i = i + 1;
    }
    proof {
        assert(file_name@.take(n as int) =~= file_name@);
        assert(out@ =~= origin@ + assets_prefix() + file_name@);
    }
    out
}

} // verus!
