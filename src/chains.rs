use vstd::prelude::*;

use crate::table::{entries_map, keys_unique, lemma_entries_absent, lemma_entries_lookup, position_of};

verus! {

/// Price-feed contract addresses by ticker.
pub struct ContractBook {
    entries: Vec<(String, String)>,
}

impl View for ContractBook {
    type V = Map<Seq<char>, Seq<char>>;

    closed spec fn view(&self) -> Map<Seq<char>, Seq<char>> {
        entries_map(self.entries@)
    }
}

impl ContractBook {
    /// Each ticker appears once.
    pub closed spec fn wf(&self) -> bool {
        keys_unique(self.entries@)
    }

    /// The address listed for `ticker`, if any.
    pub fn get(&self, ticker: &str) -> (r: Option<&String>)
        requires
            self.wf(),
        ensures
            match r {
                Some(a) => self@.contains_key(ticker@) && a@ == self@[ticker@],
                None => !self@.contains_key(ticker@),
            },
    {
        let key = ticker.to_owned();
        match position_of(&self.entries, &key) {
            Some(i) => {
                proof {
                    lemma_entries_lookup(self.entries@, i as int);
                }
                Some(&self.entries[i].1)
            },
            None => {
                proof {
                    lemma_entries_absent(self.entries@, key@);
                }
                None
            },
        }
    }

    /// How many tickers are listed.
    pub fn len(&self) -> (r: usize)
        requires
            self.wf(),
        ensures
            r as nat == self@.len(),
    {
        proof {
            lemma_book_len(self.entries@);
        }
        self.entries.len()
    }
}

proof fn lemma_book_len(s: Seq<(String, String)>)
    requires
        keys_unique(s),
    ensures
        entries_map(s).len() == s.len(),
        entries_map(s).dom().finite(),
    decreases s.len(),
{
    if s.len() > 0 {
        let t = s.drop_last();
        lemma_book_len(t);
        lemma_entries_absent(t, s.last().0@);
    }
}

/// The listed BTC feed address.
pub open spec fn btc_address() -> Seq<char> {
    "0xabcd1234efgh5678ijkl9012mnop3456qrst7890"@
}

/// The listed ETH feed address.
pub open spec fn eth_address() -> Seq<char> {
    "0x1234abcd5678efgh9012ijkl3456mnop7890qrst"@
}

/// The known feeds of a network: BTC and ETH.
pub open spec fn preset_contracts() -> Map<Seq<char>, Seq<char>> {
    map!["BTC"@ => btc_address(), "ETH"@ => eth_address()]
}

fn preset_book() -> (b: ContractBook)
    ensures
        b.wf(),
        b@ == preset_contracts(),
{
    let btc = "BTC".to_owned();
    let eth = "ETH".to_owned();
    proof {
        reveal_strlit("BTC");
        reveal_strlit("ETH");
        assert(btc@[0] != eth@[0]);
    }
    let mut entries: Vec<(String, String)> = Vec::new();
    entries.push((btc, "0xabcd1234efgh5678ijkl9012mnop3456qrst7890".to_owned()));
    entries.push((eth, "0x1234abcd5678efgh9012ijkl3456mnop7890qrst".to_owned()));
    proof {
        assert(entries@[0].0@ != entries@[1].0@);
        assert(entries@.drop_last() =~= seq![entries@[0]]);
        assert(entries@.drop_last().drop_last() =~= Seq::<(String, String)>::empty());
        let d = entries@.drop_last();
        assert(d.last() == entries@[0]);
        assert(entries_map(d.drop_last()) == Map::<Seq<char>, Seq<char>>::empty());
        assert(entries@[0].1@ == btc_address());
        let first = entries_map(d);
        assert(first == Map::<Seq<char>, Seq<char>>::empty().insert("BTC"@, btc_address()));
        assert(entries_map(entries@) == first.insert("ETH"@, eth_address()));
        assert(entries_map(entries@) =~= preset_contracts());
    }
    ContractBook { entries }
}

/// The known price-feed contracts on Ethereum.
pub fn ethereum_contracts() -> (b: ContractBook)
    ensures
        b.wf(),
        b@ == preset_contracts(),
{
    preset_book()
}

/// The known price-feed contracts on Arbitrum One.
pub fn arbitrum_contracts() -> (b: ContractBook)
    ensures
        b.wf(),
        b@ == preset_contracts(),
{
    preset_book()
}

/// Chain presets: the networks whose feeds are known.
///
/// - Ethereum (chain id 1)
/// - Arbitrum One (chain id 42161)
pub enum Chain {
    Ethereum { rpc_url: Option<&'static str>, contracts: ContractBook },
    ArbitrumOne { rpc_url: Option<&'static str>, contracts: ContractBook },
}

/// The public endpoint used for a network when no RPC url is given.
pub open spec fn fallback_rpc_url(chain_id: u32) -> Seq<char> {
    if chain_id == 1 {
        "https://1rpc.io/eth"@
    } else {
        "https://1rpc.io/arb"@
    }
}

impl Chain {
    /// The id of the network.
    pub open spec fn chain_id(&self) -> u32 {
        match self {
            Chain::Ethereum { .. } => 1,
            Chain::ArbitrumOne { .. } => 42161,
        }
    }

    /// The RPC url the chain was made with, if any.
    pub open spec fn custom_rpc_url(&self) -> Option<&'static str> {
        match self {
            Chain::Ethereum { rpc_url, .. } => *rpc_url,
            Chain::ArbitrumOne { rpc_url, .. } => *rpc_url,
        }
    }

    /// The contract book of the chain.
    pub open spec fn book(&self) -> ContractBook {
        match self {
            Chain::Ethereum { contracts, .. } => *contracts,
            Chain::ArbitrumOne { contracts, .. } => *contracts,
        }
    }

    /// The preset for network `chain_id`, optionally with a custom RPC url.
    pub fn new(chain_id: u32, rpc_url: Option<&'static str>) -> (c: Chain)
        requires
            chain_id == 1 || chain_id == 42161,
        ensures
            c.chain_id() == chain_id,
            c.custom_rpc_url() == rpc_url,
            c.book().wf(),
            c.book()@ == preset_contracts(),
    {
        if chain_id == 1 {
            Chain::Ethereum { rpc_url, contracts: ethereum_contracts() }
        } else {
            Chain::ArbitrumOne { rpc_url, contracts: arbitrum_contracts() }
        }
    }

    /// The RPC url of this chain: the custom one, else the network's public
    /// endpoint.
    pub fn rpc_url(&self) -> (r: &str)
        ensures
            r@ == match self.custom_rpc_url() {
                Some(url) => url@,
                None => fallback_rpc_url(self.chain_id()),
            },
    {
        match self {
            Chain::Ethereum { rpc_url: Some(url), .. } => url,
            Chain::Ethereum { rpc_url: None, .. } => "https://1rpc.io/eth",
            Chain::ArbitrumOne { rpc_url: Some(url), .. } => url,
            Chain::ArbitrumOne { rpc_url: None, .. } => "https://1rpc.io/arb",
        }
    }

    /// The contract book of this chain.
    pub fn contracts(&self) -> (r: &ContractBook)
        ensures
            *r == self.book(),
    {
        match self {
            Chain::Ethereum { contracts, .. } => contracts,
            Chain::ArbitrumOne { contracts, .. } => contracts,
        }
    }
}

} // verus!
