//! The pieces that transaction bodies are built from: reading a key that
//! must exist, and writing an executor's tuple of outputs back onto the
//! transaction's objects.
use crate::keys::key_bytes;
use crate::memory::SVMMemory;
use crate::primitive::{Primitive, SVMPrimitives};
use crate::transaction::{
    copy_bytes, read_value, reads_after, validates, StoreView, Transaction,
};
use vstd::prelude::*;
use vstd::string::StringSliceAdditionalSpecFns;
use vstd::utf8::encode_utf8;

verus! {

/// The error of a body that needs a key the store does not hold.
pub open spec fn missing_key(key: Seq<char>) -> Seq<char> {
    "key="@ + key + " does not exist"@
}

/// The error of a body whose executor result has the wrong shape.
pub open spec fn unexpected_result() -> Seq<char> {
    "unexpected type of result"@
}

/// The elements of a tuple, or `None` for a value that is not one.
pub open spec fn tuple_elements(p: Primitive) -> Option<Seq<Primitive>> {
    match p {
        Primitive::Tuple(els) => Some(els),
        _ => None,
    }
}

/// The write set after `keys[i]` is written with `outputs[i]`, in order of `i`.
pub open spec fn outputs_written(
    writes: Map<Seq<u8>, Primitive>,
    keys: Seq<Seq<u8>>,
    outputs: Seq<Primitive>,
) -> Map<Seq<u8>, Primitive>
    decreases keys.len(),
{
    if keys.len() == 0 {
        writes
    } else {
        outputs_written(writes, keys.drop_last(), outputs).insert(
            keys.last(),
            outputs[keys.len() - 1],
        )
    }
}

/// The text of the missing-key error for `key`.
pub fn missing_key_error(key: &str) -> (r: String)
    ensures
        r@ == missing_key(key@),
{
    let mut s = String::from_str("key=");
    s.append(key);
    s.append(" does not exist");
    s
}

/// Reads `key` in the attempt; a key that neither the attempt nor the store
/// holds is an error that names it.
pub fn read_required(txn: &mut Transaction, tm: &SVMMemory, key: &str) -> (r: Result<
    SVMPrimitives,
    String,
>)
    requires
        old(txn).wf(),
    ensures
        final(txn).wf(),
        final(txn).writes() == old(txn).writes(),
        final(txn).reads() == reads_after(old(txn).reads(), old(txn).writes(), tm@, key.spec_bytes()),
        match read_value(old(txn).writes(), tm@, key.spec_bytes()) {
            Some(v) => r is Ok && r->Ok_0@ == v,
            None => r is Err && r->Err_0@ == missing_key(key@),
        },
{
    match txn.read(tm, key_bytes(key)) {
        Some(value) => Ok(value),
        None => Err(missing_key_error(key)),
    }
}

/// Writes the executor's result back: element `i` of the result tuple
/// becomes the attempt's write of `keys[i]`. A result that is not a tuple
/// with an element for every key is an error, and nothing is written.
pub fn write_outputs(txn: &mut Transaction, keys: &Vec<Vec<u8>>, result: SVMPrimitives) -> (r: Result<
    SVMPrimitives,
    String,
>)
    requires
        old(txn).wf(),
    ensures
        final(txn).wf(),
        final(txn).reads() == old(txn).reads(),
        match tuple_elements(result@) {
            Some(outputs) => if outputs.len() >= keys@.len() {
                &&& r is Ok
                &&& r->Ok_0@ == result@
                &&& final(txn).writes() == outputs_written(
                    old(txn).writes(),
                    keys@.map_values(|k: Vec<u8>| k@),
                    outputs,
                )
            } else {
                r is Err && r->Err_0@ == unexpected_result() && final(txn).writes() == old(
                    txn,
                ).writes()
            },
            None => r is Err && r->Err_0@ == unexpected_result() && final(txn).writes() == old(
                txn,
            ).writes(),
        },
{
    let shaped = match &result {
        SVMPrimitives::Tup(els) => els.len() >= keys.len(),
        _ => false,
    };
    if !shaped {
        return Err(String::from_str("unexpected type of result"));
    }
    let ghost key_seq = keys@.map_values(|k: Vec<u8>| k@);
    let ghost w0 = txn.writes();
    let ghost r0 = txn.reads();
    if let SVMPrimitives::Tup(els) = &result {
        let ghost outputs = tuple_elements(result@)->0;
        proof {
            assert(key_seq.take(0) =~= Seq::<Seq<u8>>::empty());
        }
        let mut i: usize = 0;
        while i < keys.len()
            invariant
                i <= keys@.len(),
                keys@.len() <= els@.len(),
                key_seq == keys@.map_values(|k: Vec<u8>| k@),
                outputs == tuple_elements(result@)->0,
                result == SVMPrimitives::Tup(*els),
                txn.wf(),
                txn.reads() == r0,
                txn.writes() == outputs_written(w0, key_seq.take(i as int), outputs),
            decreases keys.len() - i,
        {
            txn.write(copy_bytes(&keys[i]), els[i].deep_copy());
            proof {
                let next = key_seq.take(i + 1);
                assert(next.drop_last() =~= key_seq.take(i as int));
                assert(next.last() == keys@[i as int]@);
                assert(outputs[i as int] == els@[i as int]@);
            }
            i = i + 1;
        }
        proof {
            assert(key_seq.take(keys@.len() as int) =~= key_seq);
        }
    }
    Ok(result)
}

/// The current value of the address `key`, read in a transaction of its own;
/// `None` when the store does not hold it.
pub fn get_val(tm: &SVMMemory, key: String) -> (r: Option<SVMPrimitives>)
    ensures
        match r {
            Some(v) => tm@.contains_key(encode_utf8(key@)) && v@ == tm@[encode_utf8(key@)].value,
            None => !tm@.contains_key(encode_utf8(key@)),
        },
{
    let mut txn = Transaction::new();
    match read_required(&mut txn, tm, key.as_str()) {
        Ok(value) => {
            proof {
                let k = encode_utf8(key@);
                let empty = Map::<Seq<u8>, Primitive>::empty();
                let reads: StoreView = reads_after(Map::empty(), empty, tm@, k);
                assert(validates(tm@, reads));
            }
            if txn.validate(tm) {
                Some(value)
            } else {
                None
            }
        },
        Err(_) => None,
    }
}

} // verus!
