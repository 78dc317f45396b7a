//! Requests that the command layer accepts and the reports it sends back.
use crate::primitive::SVMPrimitives;
use vstd::prelude::*;

verus! {

/// A transaction to run: the code to run, the objects it reads and writes
/// (by address) and the extra arguments of the code.
pub struct TxBody {
    pub tx_hash: String,
    /// The code hash.
    pub code_hash: String,
    /// The objects that the code runs with.
    pub objs: Vec<String>,
    /// Arguments of the code.
    pub args: Vec<SVMPrimitives>,
}

/// The report on a transaction.
pub struct TxResult {
    pub tx_hash: String,
    pub code_hash: String,
    pub status: bool,
    pub ret_value: Option<SVMPrimitives>,
    pub errs: Option<String>,
}

impl TxResult {
    /// The report on a transaction that ended with `outcome`: its value on
    /// success, its error otherwise.
    pub fn from_outcome(tx_hash: String, code_hash: String, outcome: Result<SVMPrimitives, String>) -> (r: Self)
        ensures
            r.tx_hash == tx_hash,
            r.code_hash == code_hash,
            r.status == outcome is Ok,
            match outcome {
                Ok(v) => r.ret_value == Some(v) && r.errs is None,
                Err(e) => r.ret_value is None && r.errs == Some(e),
            },
    {
        match outcome {
            Ok(v) => TxResult { tx_hash, code_hash, status: true, ret_value: Some(v), errs: None },
            Err(e) => TxResult { tx_hash, code_hash, status: false, ret_value: None, errs: Some(e) },
        }
    }
}

/// A transfer of `amount` from one address to another.
pub struct SubmitTransaction {
    pub tx_hash: String,
    pub code_hash: String,
    pub from: String,
    pub to: String,
    pub amount: u32,
}

/// The report on a submitted transaction or query.
pub struct ConfirmedTransaction {
    pub tx_hash: String,
    pub code_hash: String,
    pub status: bool,
    pub ret_value: Option<SVMPrimitives>,
    pub errs: Option<String>,
}

impl ConfirmedTransaction {
    /// The report on a request that ended with `outcome`: its value on
    /// success, its error otherwise.
    pub fn from_outcome(tx_hash: String, code_hash: String, outcome: Result<SVMPrimitives, String>) -> (r: Self)
        ensures
            r.tx_hash == tx_hash,
            r.code_hash == code_hash,
            r.status == outcome is Ok,
            match outcome {
                Ok(v) => r.ret_value == Some(v) && r.errs is None,
                Err(e) => r.ret_value is None && r.errs == Some(e),
            },
    {
        match outcome {
            Ok(v) => ConfirmedTransaction {
                tx_hash,
                code_hash,
                status: true,
                ret_value: Some(v),
                errs: None,
            },
            Err(e) => ConfirmedTransaction {
                tx_hash,
                code_hash,
                status: false,
                ret_value: None,
                errs: Some(e),
            },
        }
    }
}

/// A query of the value at an address.
pub struct QueryBalance {
    pub code_hash: String,
    pub address: String,
}

/// A move of one of the two players of the two-player game.
pub struct MakeMove {
    pub code_hash: String,
    pub address: String,
    pub step: u32,
}

impl MakeMove {
    /// The player who moves: 0 for the address `0x0`, 1 for any other.
    pub fn player(&self) -> (r: u32)
        ensures
            r == (if self.address@ == "0x0"@ {
                0u32
            } else {
                1u32
            }),
    {
        let first = String::from_str("0x0");
        if self.address.eq(&first) {
            0
        } else {
            1
        }
    }
}

/// The requests of the transfer protocol.
pub enum WsMessage {
    SubmitTransaction(SubmitTransaction),
    QueryBalance(QueryBalance),
    MakeMove(MakeMove),
}

/// Asks for the accounts to be allocated again.
pub struct ReallocateMemory {}

/// Asks for the value at an address.
pub struct GetValueAt {
    pub addr: String,
}

/// Submits a transaction.
pub struct SubmitTx {
    pub tx_body: TxBody,
}

/// The requests of the memory protocol.
pub enum Message {
    ReallocateMemory(ReallocateMemory),
    GetValueAt(GetValueAt),
    SubmitTx(SubmitTx),
}

/// The error of a transfer, prefixed with the address it was sent from.
pub fn transfer_error(from_key: &str, err: &str) -> (r: String)
    ensures
        r@ == "from_key="@ + from_key@ + " err="@ + err@,
{
    let mut s = String::from_str("from_key=");
    s.append(from_key);
    s.append(" err=");
    s.append(err);
    s
}

} // verus!
