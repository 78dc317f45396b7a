//! Names of keys: store keys derived from address strings, and the redis
//! keys, fields and channels of the cache layer.
use vstd::prelude::*;
use vstd::string::StringSliceAdditionalSpecFns;

verus! {

/// The decimal digit character for `d < 10`.
pub open spec fn digit_char(d: nat) -> char {
    if d == 0 {
        '0'
    } else if d == 1 {
        '1'
    } else if d == 2 {
        '2'
    } else if d == 3 {
        '3'
    } else if d == 4 {
        '4'
    } else if d == 5 {
        '5'
    } else if d == 6 {
        '6'
    } else if d == 7 {
        '7'
    } else if d == 8 {
        '8'
    } else {
        '9'
    }
}

/// The decimal form of `n`, without leading zeros.
pub open spec fn decimal(n: nat) -> Seq<char>
    decreases n,
{
    if n < 10 {
        seq![digit_char(n)]
    } else {
        decimal(n / 10).push(digit_char(n % 10))
    }
}

fn digit_str(d: u32) -> (r: &'static str)
    requires
        d < 10,
    ensures
        r@ == seq![digit_char(d as nat)],
{
    proof {
        reveal_strlit("0");
        reveal_strlit("1");
        reveal_strlit("2");
        reveal_strlit("3");
        reveal_strlit("4");
        reveal_strlit("5");
        reveal_strlit("6");
        reveal_strlit("7");
        reveal_strlit("8");
        reveal_strlit("9");
    }
    if d == 0 {
        "0"
    } else if d == 1 {
        "1"
    } else if d == 2 {
        "2"
    } else if d == 3 {
        "3"
    } else if d == 4 {
        "4"
    } else if d == 5 {
        "5"
    } else if d == 6 {
        "6"
    } else if d == 7 {
        "7"
    } else if d == 8 {
        "8"
    } else {
        assert(seq!['9'] =~= seq![digit_char(d as nat)]);
        "9"
    }
}

fn push_decimal(s: &mut String, n: u32)
    ensures
        final(s)@ == old(s)@ + decimal(n as nat),
    decreases n,
{
    if n >= 10 {
        push_decimal(s, n / 10);
    }
    s.append(digit_str(n % 10));
    proof {
        if n >= 10 {
            assert(decimal(n as nat) == decimal((n / 10) as nat).push(digit_char((n % 10) as nat)));
        }
    }
    assert(s@ =~= old(s)@ + decimal(n as nat));
}

/// The decimal form of `n` as a string.
pub fn decimal_string(n: u32) -> (r: String)
    ensures
        r@ == decimal(n as nat),
{
    let mut s = String::new();
    push_decimal(&mut s, n);
    assert(s@ =~= decimal(n as nat));
    s
}

/// The store key of an address: the bytes of its text.
pub fn key_bytes(s: &str) -> (r: Vec<u8>)
    ensures
        r@ == s.spec_bytes(),
{
    vstd::slice::slice_to_vec(s.as_bytes())
}

/// The address `0x<i>` of the `i`-th account.
pub fn address(i: u32) -> (r: String)
    ensures
        r@ == "0x"@ + decimal(i as nat),
{
    let mut s = String::from_str("0x");
    s.append(decimal_string(i).as_str());
    s
}

/// `a` followed by `b`.
fn joined(a: &str, b: &str) -> (r: String)
    ensures
        r@ == a@ + b@,
{
    let mut s = String::from_str(a);
    s.append(b);
    s
}

/// Keys, fields and channels of the redis cache.
pub struct DPNRedisKey {}

impl DPNRedisKey {
    /// Hash key and field of the location of a peer's login session.
    pub fn get_geo_kf(masternode_id: String, login_session_id: String) -> (r: (String, String))
        ensures
            r.0@ == "peer_geo"@,
            r.1@ == masternode_id@ + "_"@ + login_session_id@,
    {
        let mut field = joined(masternode_id.as_str(), "_");
        field.append(login_session_id.as_str());
        (String::from_str("peer_geo"), field)
    }

    /// Hash key and field of a user's balance.
    pub fn get_balance_kf(user_addr: String) -> (r: (String, String))
        ensures
            r.0@ == "client_user_balance"@,
            r.1@ == user_addr@,
    {
        (String::from_str("client_user_balance"), user_addr)
    }

    /// Key of the peer queue of a master node.
    pub fn get_peer_queue_k(masternode_id: String) -> (r: String)
        ensures
            r@ == "peer_queue_ms#"@ + masternode_id@ + "_"@,
    {
        let mut key = joined("peer_queue_ms#", masternode_id.as_str());
        key.append("_");
        key
    }

    /// Hash key and field of a peer of a master node, by its IPv4 address.
    pub fn get_peers_kf(masternode_id: String, ip_u32: u32) -> (r: (String, String))
        ensures
            r.0@ == "peers_ms#"@ + masternode_id@,
            r.1@ == decimal(ip_u32 as nat),
    {
        (joined("peers_ms#", masternode_id.as_str()), decimal_string(ip_u32))
    }

    /// Channel that announces changes to the peers of a master node.
    pub fn get_peers_chan(masternode_id: String) -> (r: String)
        ensures
            r@ == "peers_updated_ms#"@ + masternode_id@,
    {
        joined("peers_updated_ms#", masternode_id.as_str())
    }

    /// Hash key and field of a peer's price.
    pub fn get_price_kf(peer_addr: String) -> (r: (String, String))
        ensures
            r.0@ == "peer_price"@,
            r.1@ == peer_addr@,
    {
        (String::from_str("peer_price"), peer_addr)
    }

    /// Hash key and field of a proxy account.
    pub fn get_proxy_acc_kf(id: String) -> (r: (String, String))
        ensures
            r.0@ == "proxy_acc"@,
            r.1@ == id@,
    {
        (String::from_str("proxy_acc"), id)
    }

    /// Channel that announces changes to proxy accounts.
    pub fn get_proxy_acc_chan() -> (r: String)
        ensures
            r@ == "proxy_acc_updated"@,
    {
        String::from_str("proxy_acc_updated")
    }

    /// Channel that announces changes to prices.
    pub fn get_price_chan() -> (r: String)
        ensures
            r@ == "price_updated"@,
    {
        String::from_str("price_updated")
    }
}

} // verus!
