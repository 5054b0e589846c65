//! End-to-end harness decisions: the command lines given to the chain's
//! client, how a transaction is waited for, and the check of a message against
//! the required fields of its schema. Running the commands, sleeping and JSON
//! handling stay with the caller, which hands the results back.
use vstd::prelude::*;
use crate::text::{decimal, decimal_text, concat};

verus! {

/// Polls of a transaction before giving up.
pub const MAX_TX_RETRIES: u32 = 10;

/// Seconds between two polls of a transaction.
pub const TX_POLL_SECONDS: u64 = 6;

/// Why a step of the harness failed.
#[derive(Clone, Debug, PartialEq, Eq)]
pub enum Error {
    CommandExecution(String),
    SchemaValidation(String),
    TransactionFailed(String),
    QueryFailed(String),
    ContractError(String),
}

/// The texts of a list of strings.
pub open spec fn texts(v: Seq<String>) -> Seq<Seq<char>> {
    v.map_values(|s: String| s@)
}

fn push_text(v: &mut Vec<String>, s: &str)
    ensures
        texts(final(v)@) == texts(old(v)@).push(s@),
{
    let ghost before = v@;
    v.push(s.to_owned());
    assert(texts(v@) =~= texts(before).push(s@));
}

/// A chain reached through a node.
pub struct Chain {
    node: String,
    chain_id: String,
}

/// A contract on a chain.
pub struct Contract {
    pub address: String,
    pub chain: Chain,
}

impl Chain {
    /// The node's address.
    pub closed spec fn node_text(&self) -> Seq<char> {
        self.node@
    }

    /// The chain's id.
    pub closed spec fn chain_id_text(&self) -> Seq<char> {
        self.chain_id@
    }

    /// A chain reached through `node`.
    pub fn new(node: &str, chain_id: &str) -> (c: Chain)
        ensures
            c.node_text() == node@,
            c.chain_id_text() == chain_id@,
    {
        Chain { node: node.to_owned(), chain_id: chain_id.to_owned() }
    }

    /// The node's address.
    pub fn get_node(&self) -> (n: &str)
        ensures
            n@ == self.node_text(),
    {
        self.node.as_str()
    }

    /// The arguments of the client's command that executes `msg` on
    /// `contract_addr` from `from`, sending `funds` when given.
    pub fn tx_args(&self, contract_addr: &str, msg: &str, from: &str, funds: Option<&str>) -> (args:
        Vec<String>)
        ensures
            texts(args@) == seq![
                "tx"@,
                "wasm"@,
                "execute"@,
                contract_addr@,
                msg@,
                "--from"@,
                from@,
                "--chain-id"@,
                self.chain_id_text(),
                "--node"@,
                self.node_text(),
                "--gas"@,
                "auto"@,
                "--gas-adjustment"@,
                "1.3"@,
                "--fees"@,
                "2000ustars"@,
                "--output"@,
                "json"@,
                "--keyring-backend"@,
                "test"@,
                "-y"@,
                "--broadcast-mode"@,
                "sync"@,
            ] + match funds {
                Some(f) => seq!["--amount"@, f@],
                None => Seq::<Seq<char>>::empty(),
            },
    {
        let mut args: Vec<String> = Vec::new();
        push_text(&mut args, "tx");
        push_text(&mut args, "wasm");
        push_text(&mut args, "execute");
        push_text(&mut args, contract_addr);
        push_text(&mut args, msg);
        push_text(&mut args, "--from");
        push_text(&mut args, from);
        push_text(&mut args, "--chain-id");
        push_text(&mut args, self.chain_id.as_str());
        push_text(&mut args, "--node");
        push_text(&mut args, self.node.as_str());
        push_text(&mut args, "--gas");
        push_text(&mut args, "auto");
        push_text(&mut args, "--gas-adjustment");
        push_text(&mut args, "1.3");
        push_text(&mut args, "--fees");
        push_text(&mut args, "2000ustars");
        push_text(&mut args, "--output");
        push_text(&mut args, "json");
        push_text(&mut args, "--keyring-backend");
        push_text(&mut args, "test");
        push_text(&mut args, "-y");
        push_text(&mut args, "--broadcast-mode");
        push_text(&mut args, "sync");
        let ghost base = texts(args@);
        if let Some(f) = funds {
            push_text(&mut args, "--amount");
            push_text(&mut args, f);
            assert(texts(args@) =~= base + seq!["--amount"@, f@]);
        } else {
            assert(texts(args@) =~= base + Seq::<Seq<char>>::empty());
        }
        args
    }

    /// The arguments of the client's command that looks a transaction up.
    pub fn tx_status_args(&self, txhash: &str) -> (args: Vec<String>)
        ensures
            texts(args@) == seq![
                "query"@,
                "tx"@,
                txhash@,
                "--node"@,
                self.node_text(),
                "--output"@,
                "json"@,
            ],
    {
        let mut args: Vec<String> = Vec::new();
        push_text(&mut args, "query");
        push_text(&mut args, "tx");
        push_text(&mut args, txhash);
        push_text(&mut args, "--node");
        push_text(&mut args, self.node.as_str());
        push_text(&mut args, "--output");
        push_text(&mut args, "json");
        args
    }

    /// The arguments of the client's command that queries `contract_addr`
    /// with `msg`.
    pub fn query_args(&self, contract_addr: &str, msg: &str) -> (args: Vec<String>)
        ensures
            texts(args@) == seq![
                "query"@,
                "wasm"@,
                "contract-state"@,
                "smart"@,
                contract_addr@,
                msg@,
                "--output"@,
                "json"@,
                "--node"@,
                self.node_text(),
            ],
    {
        let mut args: Vec<String> = Vec::new();
        push_text(&mut args, "query");
        push_text(&mut args, "wasm");
        push_text(&mut args, "contract-state");
        push_text(&mut args, "smart");
        push_text(&mut args, contract_addr);
        push_text(&mut args, msg);
        push_text(&mut args, "--output");
        push_text(&mut args, "json");
        push_text(&mut args, "--node");
        push_text(&mut args, self.node.as_str());
        args
    }

    /// The arguments of the client's command that queries the balance of
    /// `address` in `denom`.
    pub fn balance_args(&self, address: &str, denom: &str) -> (args: Vec<String>)
        ensures
            texts(args@) == seq![
                "query"@,
                "bank"@,
                "balances"@,
                address@,
                "--denom"@,
                denom@,
                "--node"@,
                self.node_text(),
                "--output"@,
                "json"@,
            ],
    {
        let mut args: Vec<String> = Vec::new();
        push_text(&mut args, "query");
        push_text(&mut args, "bank");
        push_text(&mut args, "balances");
        push_text(&mut args, address);
        push_text(&mut args, "--denom");
        push_text(&mut args, denom);
        push_text(&mut args, "--node");
        push_text(&mut args, self.node.as_str());
        push_text(&mut args, "--output");
        push_text(&mut args, "json");
        args
    }
}

impl Default for Chain {
    /// The public testnet's node.
    fn default() -> (c: Chain)
        ensures
            c.node_text() == "https://rpc.elgafar-1.stargaze-apis.com:443"@,
            c.chain_id_text() == "elgafar-1"@,
    {
        Chain::new("https://rpc.elgafar-1.stargaze-apis.com:443", "elgafar-1")
    }
}

impl Contract {
    /// The contract at `address` on `chain`.
    pub fn new(address: &str, chain: Chain) -> (c: Contract)
        ensures
            c.address@ == address@,
            c.chain == chain,
    {
        Contract { address: address.to_owned(), chain }
    }

    /// Checks that a message has each of the fields its schema requires;
    /// `present` holds the message's field names (none when it is no object).
    pub fn validate_message(&self, required: &Vec<String>, present: &Vec<String>) -> (r: Result<
        (),
        Error,
    >)
        ensures
            match first_missing(texts(required@), texts(present@)) {
                None => r is Ok,
                Some(name) => r matches Err(Error::SchemaValidation(m)) && m@
                    == "Missing required field: "@ + name,
            },
    {
        check_required_fields(required, present)
    }
}

/// The first of `required` that is not among `present`.
pub open spec fn first_missing(required: Seq<Seq<char>>, present: Seq<Seq<char>>) -> Option<Seq<char>>
    decreases required.len(),
{
    if required.len() == 0 {
        None
    } else if !present.contains(required[0]) {
        Some(required[0])
    } else {
        first_missing(required.drop_first(), present)
    }
}

fn contains_text(v: &Vec<String>, s: &String) -> (b: bool)
    ensures
        b == texts(v@).contains(s@),
{
    let mut i: usize = 0;
    while i < v.len()
        invariant
            i <= v@.len(),
            forall|j: int| 0 <= j < i ==> v@[j]@ != s@,
        decreases v@.len() - i,
    {
        if v[i] == *s {
            assert(texts(v@)[i as int] == s@);
            return true;
        }
        i = i + 1;
    }
    proof {
        if texts(v@).contains(s@) {
            let j = choose|j: int| 0 <= j < texts(v@).len() && texts(v@)[j] == s@;
            assert(v@[j]@ == s@);
        }
    }
    false
}

/// Checks that each of `required` is among `present`: the first that is not
/// gives `SchemaValidation("Missing required field: {name}")`.
pub fn check_required_fields(required: &Vec<String>, present: &Vec<String>) -> (r: Result<(), Error>)
    ensures
        match first_missing(texts(required@), texts(present@)) {
            None => r is Ok,
            Some(name) => r matches Err(Error::SchemaValidation(m)) && m@ == "Missing required field: "@
                + name,
        },
{
    let mut i: usize = 0;
    assert(texts(required@).skip(0) =~= texts(required@));
    while i < required.len()
        invariant
            i <= required@.len(),
            first_missing(texts(required@), texts(present@)) == first_missing(
                texts(required@).skip(i as int),
                texts(present@),
            ),
        decreases required@.len() - i,
    {
        assert(texts(required@).skip(i as int)[0] == required@[i as int]@);
        assert(texts(required@).skip(i as int).drop_first() =~= texts(required@).skip(i + 1));
        if !contains_text(present, &required[i]) {
            return Err(Error::SchemaValidation(concat("Missing required field: ", required[i].as_str())));
        }
        i = i + 1;
    }
    Ok(())
}

/// Whether `r` is how a transaction found with `code` and `raw_log` ended: code 0
/// is success; another code, or none, fails with the raw log (`Unknown error`
/// when there is none).
pub open spec fn is_tx_outcome(r: Result<(), Error>, code: Option<u64>, raw_log: Option<String>) -> bool {
    if code == Some(0u64) {
        r is Ok
    } else {
        r matches Err(Error::TransactionFailed(m)) && m@ == match raw_log {
            Some(l) => l@,
            None => "Unknown error"@,
        }
    }
}

/// How a transaction that was found ended.
pub fn tx_outcome(code: Option<u64>, raw_log: Option<String>) -> (r: Result<(), Error>)
    ensures
        is_tx_outcome(r, code, raw_log),
{
    let c = match code {
        Some(c) => c,
        None => 1,
    };
    if c != 0 {
        let log = match raw_log {
            Some(l) => l,
            None => "Unknown error".to_owned(),
        };
        return Err(Error::TransactionFailed(log));
    }
    Ok(())
}

/// What a lookup of a transaction found.
pub enum TxPoll {
    /// The transaction is in a block, with this code and raw log.
    Included { code: Option<u64>, raw_log: Option<String> },
    /// The lookup failed, with this error output.
    Pending { stderr: String },
}

/// What to do after a lookup.
pub enum TxWaitAction {
    /// Sleep, then look the transaction up again.
    PollAgain,
    /// Stop, with this outcome.
    Finish(Result<(), Error>),
}

/// The wait for a transaction to be included in a block: how many lookups
/// failed, and the last error.
pub struct TxWait {
    pub retries: u32,
    pub last_error: Option<String>,
}

/// The text that ends a wait that gave up.
pub open spec fn gave_up_text(last_error: Option<Seq<char>>) -> Seq<char> {
    "Transaction not found after "@ + decimal(MAX_TX_RETRIES as u128) + " retries. Last error: "@
        + match last_error {
        Some(e) => e,
        None => "Unknown error"@,
    }
}

impl TxWait {
    /// A wait with no lookup made.
    pub fn new() -> (w: TxWait)
        ensures
            w.retries == 0,
            w.last_error is None,
    {
        TxWait { retries: 0, last_error: None }
    }

    /// Whether another lookup is due.
    pub fn should_poll(&self) -> (b: bool)
        ensures
            b == (self.retries < MAX_TX_RETRIES),
    {
        self.retries < MAX_TX_RETRIES
    }

    /// Takes in a lookup's result: a transaction found ends the wait with its
    /// outcome; a failed lookup is counted and its error kept.
    pub fn on_poll(&mut self, poll: TxPoll) -> (a: TxWaitAction)
        requires
            old(self).retries < MAX_TX_RETRIES,
        ensures
            match poll {
                TxPoll::Included { code, raw_log } => *final(self) == *old(self) && (a matches TxWaitAction::Finish(r) && is_tx_outcome(r, code, raw_log)),
                TxPoll::Pending { stderr } => a is PollAgain && final(self).retries == old(self).retries + 1
                    && final(self).last_error == Some(stderr),
            },
    {
        match poll {
            TxPoll::Included { code, raw_log } => TxWaitAction::Finish(tx_outcome(code, raw_log)),
            TxPoll::Pending { stderr } => {
                self.retries = self.retries + 1;
                self.last_error = Some(stderr);
                TxWaitAction::PollAgain
            },
        }
    }

    /// The failure of a wait that ran out of lookups.
    pub fn give_up(&self) -> (e: Error)
        ensures
            e matches Error::TransactionFailed(m) && m@ == gave_up_text(
                match self.last_error {
                    Some(l) => Some(l@),
                    None => None,
                },
            ),
    {
        let head = concat("Transaction not found after ", decimal_text(MAX_TX_RETRIES as u128).as_str());
        let mid = concat(head.as_str(), " retries. Last error: ");
        let last = match &self.last_error {
            Some(l) => l.clone(),
            None => "Unknown error".to_owned(),
        };
        Error::TransactionFailed(concat(mid.as_str(), last.as_str()))
    }
}

} // verus!
