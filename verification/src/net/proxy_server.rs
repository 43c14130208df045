//! The proxy server's address.

use crate::text;
use crate::text::decimal_text;
use vstd::prelude::*;
use vstd::string::StringExecFns;

verus! {

/// The multiaddress on which the proxy server listens: TCP on `port` of every IPv4 interface.
pub fn listen_addr(port: u16) -> (out: String)
    ensures
        out@ == "/ip4/0.0.0.0/tcp/"@ + text::decimal(port as nat),
{
    "/ip4/0.0.0.0/tcp/".to_owned().concat(decimal_text(port as u32).as_str())
}

/// The proxy server listens on TCP on every IPv4 interface, on the port that it is given: what
/// stands behind the address is the number of the port.
pub proof fn law_address_ends_in_port(port: u16, out: String)
    requires
        call_ensures(listen_addr, (port,), out),
    ensures
        exists|digits: Seq<char>|
            out@ == #[trigger] ("/ip4/0.0.0.0/tcp/"@ + digits) && text::value_of(digits) == port
                && digits.len() > 0 && (port > 0 ==> digits[0] != '0') && (port == 0
                ==> digits.len() == 1),
{
    let digits = text::decimal(port as nat);
    text::law_decimal_stands_for_number(port as nat);
    assert(out@ == "/ip4/0.0.0.0/tcp/"@ + digits);
}

} // verus!
