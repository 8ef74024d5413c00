//! Where the device listens.
//!
//! A Pixelblaze serves a websocket on port 81 of its address. The client
//! connects to it once and names one sub-protocol when it does.

use vstd::prelude::*;
use vstd::string::StringExecFns;

verus! {

/// The address of the websocket of the device at `address`:
/// `ws://<address>:81`.
pub open spec fn url_spec(address: Seq<char>) -> Seq<char> {
    seq!['w', 's', ':', '/', '/'] + address + seq![':', '8', '1']
}

/// The sub-protocol that the client asks for: `rust-websocket`.
pub open spec fn subprotocol_spec() -> Seq<char> {
    seq!['r', 'u', 's', 't', '-', 'w', 'e', 'b', 's', 'o', 'c', 'k', 'e', 't']
}

/// The address to connect to for the device at `address`, which is taken as
/// it is given.
pub fn url(address: &str) -> (url: String)
    ensures
        url@ == url_spec(address@),
{
    proof {
        reveal_strlit("ws://");
        reveal_strlit(":81");
    }
    let mut url = String::from_str("ws://");
    url.append(address);
    url.append(":81");
    assert(url@ =~= url_spec(address@));
    url
}

/// The sub-protocol to ask for when connecting.
pub fn subprotocol() -> (name: &'static str)
    ensures
        name@ == subprotocol_spec(),
{
    proof {
        reveal_strlit("rust-websocket");
    }
    let name = "rust-websocket";
    assert(name@ =~= subprotocol_spec());
    name
}

} // verus!
