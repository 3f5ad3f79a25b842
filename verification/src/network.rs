//! The chains a payment can be made on.
use vstd::prelude::*;
use crate::text::same_text;

verus! {

/// The chain (and so the currency) that a request is for.
#[derive(Debug, Clone, Copy, PartialEq, Eq, Structural)]
pub enum Network {
    Bitcoin,
    Testnet,
    Testnet4,
    Signet,
    Regtest,
}

impl Network {
    /// The network that the identifier `name` stands for, if it is one.
    pub open spec fn named(name: Seq<char>) -> Option<Network> {
        if name == "bitcoin"@ {
            Some(Network::Bitcoin)
        } else if name == "testnet"@ {
            Some(Network::Testnet)
        } else if name == "testnet4"@ {
            Some(Network::Testnet4)
        } else if name == "signet"@ {
            Some(Network::Signet)
        } else if name == "regtest"@ {
            Some(Network::Regtest)
        } else {
            None
        }
    }

    /// The network that an invoice with the currency prefix `code` is for,
    /// if the prefix is known.
    pub open spec fn of_currency(code: Seq<char>) -> Option<Network> {
        if code == "bc"@ {
            Some(Network::Bitcoin)
        } else if code == "tb"@ {
            Some(Network::Testnet)
        } else if code == "tbs"@ {
            Some(Network::Signet)
        } else if code == "bcrt"@ {
            Some(Network::Regtest)
        } else {
            None
        }
    }

    /// Reads a network identifier: `bitcoin`, `testnet`, `testnet4`,
    /// `signet` or `regtest`.
    pub fn from_name(name: &str) -> (r: Option<Network>)
        ensures
            r == Network::named(name@),
    {
        if same_text(name, "bitcoin") {
            Some(Network::Bitcoin)
        } else if same_text(name, "testnet") {
            Some(Network::Testnet)
        } else if same_text(name, "testnet4") {
            Some(Network::Testnet4)
        } else if same_text(name, "signet") {
            Some(Network::Signet)
        } else if same_text(name, "regtest") {
            Some(Network::Regtest)
        } else {
            None
        }
    }

    /// Reads the currency prefix of an invoice: `bc`, `tb`, `tbs` or `bcrt`.
    pub fn from_currency(code: &str) -> (r: Option<Network>)
        ensures
            r == Network::of_currency(code@),
    {
        if same_text(code, "bc") {
            Some(Network::Bitcoin)
        } else if same_text(code, "tb") {
            Some(Network::Testnet)
        } else if same_text(code, "tbs") {
            Some(Network::Signet)
        } else if same_text(code, "bcrt") {
            Some(Network::Regtest)
        } else {
            None
        }
    }

    /// The identifier of the network.
    pub open spec fn name_text(&self) -> Seq<char> {
        match self {
            Network::Bitcoin => "bitcoin"@,
            Network::Testnet => "testnet"@,
            Network::Testnet4 => "testnet4"@,
            Network::Signet => "signet"@,
            Network::Regtest => "regtest"@,
        }
    }

    /// The identifier of the network, as `from_name` reads it.
    pub fn name(&self) -> (r: &'static str)
        ensures
            r@ == self.name_text(),
            Network::named(r@) == Some(*self),
    {
        match self {
            Network::Bitcoin => "bitcoin",
            Network::Testnet => {
                proof {
                    reveal_strlit("bitcoin");
                    reveal_strlit("testnet");
                    assert("bitcoin"@[0] != "testnet"@[0]);
                }
                "testnet"
            },
            Network::Testnet4 => {
                proof {
                    reveal_strlit("bitcoin");
                    reveal_strlit("testnet");
                    reveal_strlit("testnet4");
                    assert("bitcoin"@.len() != "testnet4"@.len());
                    assert("testnet"@.len() != "testnet4"@.len());
                }
                "testnet4"
            },
            Network::Signet => {
                proof {
                    reveal_strlit("bitcoin");
                    reveal_strlit("testnet");
                    reveal_strlit("testnet4");
                    reveal_strlit("signet");
                    assert("bitcoin"@.len() != "signet"@.len());
                    assert("testnet"@.len() != "signet"@.len());
                    assert("testnet4"@.len() != "signet"@.len());
                }
                "signet"
            },
            Network::Regtest => {
                proof {
                    reveal_strlit("bitcoin");
                    reveal_strlit("testnet");
                    reveal_strlit("testnet4");
                    reveal_strlit("signet");
                    reveal_strlit("regtest");
                    assert("bitcoin"@[0] != "regtest"@[0]);
                    assert("testnet"@[0] != "regtest"@[0]);
                    assert("testnet4"@.len() != "regtest"@.len());
                    assert("signet"@.len() != "regtest"@.len());
                }
                "regtest"
            },
        }
    }
}

} // verus!
