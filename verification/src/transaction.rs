//! Bitcoin transactions as they travel in `tx` messages, legacy and SegWit.
//!
//! ```text
//! version (4) | [marker 0x00, flag 0x01] | n_in (varint) | inputs
//!             | n_out (varint) | outputs | [witness per input] | locktime (4)
//! input:  prev_txid (32) | prev_index (4) | script_len (varint) | scriptSig | sequence (4)
//! output: value (8) | script_len (varint) | scriptPubKey
//! ```

use vstd::prelude::*;
use crate::encoding::{
    decode_varint, varint_decode, le_value, read_le, le_bytes, varint_bytes, lemma_le_roundtrip,
    lemma_pow256_values, lemma_varint_roundtrip, lemma_varint_extend, lemma_varint_first_byte,
    lemma_le_bytes_len,
};

verus! {

/// A transaction input: the outpoint it spends.
pub struct TxInput {
    pub prev_txid: [u8; 32],
    pub prev_index: u32,
}

/// A transaction output.
pub struct TxOutput {
    /// Value in satoshis.
    pub value: u64,
    pub script_pubkey: Vec<u8>,
}

/// A decoded transaction.
pub struct Transaction {
    pub version: i32,
    pub inputs: Vec<TxInput>,
    pub outputs: Vec<TxOutput>,
    pub locktime: u32,
    pub is_segwit: bool,
}

/// An input as plain values.
pub struct InputModel {
    pub prev_txid: Seq<u8>,
    pub prev_index: u32,
}

/// An output as plain values.
pub struct OutputModel {
    pub value: u64,
    pub script_pubkey: Seq<u8>,
}

/// A transaction as plain values.
pub struct TxModel {
    pub version: i32,
    pub inputs: Seq<InputModel>,
    pub outputs: Seq<OutputModel>,
    pub locktime: u32,
    pub is_segwit: bool,
}

impl View for TxInput {
    type V = InputModel;

    open spec fn view(&self) -> InputModel {
        InputModel { prev_txid: self.prev_txid@, prev_index: self.prev_index }
    }
}

impl View for TxOutput {
    type V = OutputModel;

    open spec fn view(&self) -> OutputModel {
        OutputModel { value: self.value, script_pubkey: self.script_pubkey@ }
    }
}

impl View for Transaction {
    type V = TxModel;

    open spec fn view(&self) -> TxModel {
        TxModel {
            version: self.version,
            inputs: self.inputs@.map_values(|i: TxInput| i@),
            outputs: self.outputs@.map_values(|o: TxOutput| o@),
            locktime: self.locktime,
            is_segwit: self.is_segwit,
        }
    }
}

// ── The format, as a function of the bytes ───────────────────────────────────

/// One input at `off`: the input and the offset after it.
pub open spec fn input_at(data: Seq<u8>, off: int) -> Result<(InputModel, int), Seq<char>> {
    if data.len() < off + 32 {
        Err("TX truncated while reading input prev_txid"@)
    } else if data.len() < off + 36 {
        Err("TX truncated while reading input prev_index"@)
    } else {
        match varint_decode(data, off + 36) {
            Err(e) => Err(e),
            Ok((script_len, used)) => {
                let after_len: int = off + 36 + used;
                let script_end: int = after_len + (script_len as usize);
                if data.len() < script_end {
                    Err("TX truncated while reading input scriptSig"@)
                } else if data.len() < script_end + 4 {
                    Err("TX truncated while reading input sequence"@)
                } else {
                    Ok(
                        (
                            InputModel {
                                prev_txid: data.subrange(off, off + 32),
                                prev_index: le_value(data.subrange(off + 32, off + 36)) as u32,
                            },
                            script_end + 4,
                        ),
                    )
                }
            },
        }
    }
}

/// `count` inputs one after the other from `off`.
pub open spec fn inputs_from(data: Seq<u8>, off: int, count: nat) -> Result<(Seq<InputModel>, int), Seq<char>>
    decreases count,
{
    if count == 0 {
        Ok((seq![], off))
    } else {
        match inputs_from(data, off, (count - 1) as nat) {
            Err(e) => Err(e),
            Ok((ins, o)) => match input_at(data, o) {
                Err(e) => Err(e),
                Ok((i, o2)) => Ok((ins.push(i), o2)),
            },
        }
    }
}

/// One output at `off`: the output and the offset after it.
pub open spec fn output_at(data: Seq<u8>, off: int) -> Result<(OutputModel, int), Seq<char>> {
    if data.len() < off + 8 {
        Err("TX truncated while reading output value"@)
    } else {
        match varint_decode(data, off + 8) {
            Err(e) => Err(e),
            Ok((script_len, used)) => {
                let start: int = off + 8 + used;
                let end: int = start + (script_len as usize);
                if data.len() < end {
                    Err("TX truncated while reading output scriptPubKey"@)
                } else {
                    Ok(
                        (
                            OutputModel {
                                value: le_value(data.subrange(off, off + 8)) as u64,
                                script_pubkey: data.subrange(start, end),
                            },
                            end,
                        ),
                    )
                }
            },
        }
    }
}

/// `count` outputs one after the other from `off`.
pub open spec fn outputs_from(data: Seq<u8>, off: int, count: nat) -> Result<(Seq<OutputModel>, int), Seq<char>>
    decreases count,
{
    if count == 0 {
        Ok((seq![], off))
    } else {
        match outputs_from(data, off, (count - 1) as nat) {
            Err(e) => Err(e),
            Ok((outs, o)) => match output_at(data, o) {
                Err(e) => Err(e),
                Ok((x, o2)) => Ok((outs.push(x), o2)),
            },
        }
    }
}

/// Skipping `count` witness items from `off`; item bodies are skipped by
/// their announced length without reading them.
pub open spec fn witness_items_from(data: Seq<u8>, off: int, count: nat) -> Result<int, Seq<char>>
    decreases count,
{
    if count == 0 {
        Ok(off)
    } else {
        match witness_items_from(data, off, (count - 1) as nat) {
            Err(e) => Err(e),
            Ok(o) => match varint_decode(data, o) {
                Err(e) => Err(e),
                Ok((item_len, used)) => Ok(o + used + (item_len as usize)),
            },
        }
    }
}

/// Skipping one witness stack (an item count, then the items) per input.
pub open spec fn witnesses_from(data: Seq<u8>, off: int, stacks: nat) -> Result<int, Seq<char>>
    decreases stacks,
{
    if stacks == 0 {
        Ok(off)
    } else {
        match witnesses_from(data, off, (stacks - 1) as nat) {
            Err(e) => Err(e),
            Ok(o) => match varint_decode(data, o) {
                Err(e) => Err(e),
                Ok((items, used)) => witness_items_from(data, o + used, items as nat),
            },
        }
    }
}

/// Whether a payload announces the SegWit layout: a 0x00 marker after the
/// version, with at least one more byte following.
pub open spec fn segwit_marked(data: Seq<u8>) -> bool {
    data.len() > 5 && data[4] == 0
}

/// The locktime and the complete transaction once the body ends at `off`.
pub open spec fn finish_at(data: Seq<u8>, off: int, ins: Seq<InputModel>, outs: Seq<OutputModel>) -> Result<TxModel, Seq<char>> {
    if data.len() < off + 4 {
        Err("TX truncated while reading locktime"@)
    } else {
        Ok(
            TxModel {
                version: (le_value(data.subrange(0, 4)) as u32) as i32,
                inputs: ins,
                outputs: outs,
                locktime: le_value(data.subrange(off, off + 4)) as u32,
                is_segwit: segwit_marked(data),
            },
        )
    }
}

/// The outputs, the witnesses of a SegWit transaction, and the locktime,
/// after the inputs have ended at `off`.
pub open spec fn after_inputs(data: Seq<u8>, off: int, ins: Seq<InputModel>) -> Result<TxModel, Seq<char>> {
    match varint_decode(data, off) {
        Err(e) => Err(e),
        Ok((n_out, used)) => match outputs_from(data, off + used, n_out as nat) {
            Err(e) => Err(e),
            Ok((outs, o)) => after_outputs(data, o, ins, outs),
        },
    }
}

/// The witnesses of a SegWit transaction, and the locktime, after the
/// outputs have ended at `off`.
pub open spec fn after_outputs(data: Seq<u8>, off: int, ins: Seq<InputModel>, outs: Seq<OutputModel>) -> Result<TxModel, Seq<char>> {
    if segwit_marked(data) {
        match witnesses_from(data, off, ins.len()) {
            Err(e) => Err(e),
            Ok(o2) => finish_at(data, o2, ins, outs),
        }
    } else {
        finish_at(data, off, ins, outs)
    }
}

/// The transaction encoded by a `tx` payload, or the message for the first
/// problem met while reading it.
pub open spec fn tx_decode(data: Seq<u8>) -> Result<TxModel, Seq<char>> {
    if data.len() < 4 {
        Err("TX data too short for version field"@)
    } else if segwit_marked(data) && data[5] != 1 {
        Err("Invalid SegWit flag — expected 0x01"@)
    } else {
        let start: int = if segwit_marked(data) { 6 } else { 4 };
        match varint_decode(data, start) {
            Err(e) => Err(e),
            Ok((n_in, used)) => match inputs_from(data, start + used, n_in as nat) {
                Err(e) => Err(e),
                Ok((ins, o)) => after_inputs(data, o, ins),
            },
        }
    }
}

} // verus!

verus! {

// ── Errors stop the reading for good ─────────────────────────────────────────

proof fn lemma_inputs_err(data: Seq<u8>, off: int, k: nat, n: nat)
    requires
        k <= n,
        inputs_from(data, off, k) is Err,
    ensures
        inputs_from(data, off, n) == inputs_from(data, off, k),
    decreases n,
{
    if k < n {
        lemma_inputs_err(data, off, k, (n - 1) as nat);
    }
}

proof fn lemma_outputs_err(data: Seq<u8>, off: int, k: nat, n: nat)
    requires
        k <= n,
        outputs_from(data, off, k) is Err,
    ensures
        outputs_from(data, off, n) == outputs_from(data, off, k),
    decreases n,
{
    if k < n {
        lemma_outputs_err(data, off, k, (n - 1) as nat);
    }
}

proof fn lemma_witness_items_err(data: Seq<u8>, off: int, k: nat, n: nat)
    requires
        k <= n,
        witness_items_from(data, off, k) is Err,
    ensures
        witness_items_from(data, off, n) == witness_items_from(data, off, k),
    decreases n,
{
    if k < n {
        lemma_witness_items_err(data, off, k, (n - 1) as nat);
    }
}

proof fn lemma_witnesses_err(data: Seq<u8>, off: int, k: nat, n: nat)
    requires
        k <= n,
        witnesses_from(data, off, k) is Err,
    ensures
        witnesses_from(data, off, n) == witnesses_from(data, off, k),
    decreases n,
{
    if k < n {
        lemma_witnesses_err(data, off, k, (n - 1) as nat);
    }
}

// ── Reading ──────────────────────────────────────────────────────────────────

/// Where the reader stands: at `offset` within the buffer, or past its end.
pub open spec fn located(x: int, offset: usize, past: bool, len: nat) -> bool {
    if past {
        x > len
    } else {
        x == offset && offset <= len
    }
}

fn parse_input(data: &[u8], off: usize) -> (r: Result<(TxInput, usize), String>)
    requires
        off <= data@.len(),
    ensures
        match r {
            Ok((i, o)) => input_at(data@, off as int) == Ok::<(InputModel, int), Seq<char>>(
                (i@, o as int),
            ) && o <= data@.len(),
            Err(e) => input_at(data@, off as int) == Err::<(InputModel, int), Seq<char>>(e@),
        },
{
    let len = data.len();
    if len - off < 32 {
        return Err("TX truncated while reading input prev_txid".to_owned());
    }
    let mut prev_txid = [0u8; 32];
    let mut k: usize = 0;
    while k < 32
        invariant
            k <= 32,
            len == data@.len(),
            off + 32 <= data@.len(),
            forall|j: int| 0 <= j < k ==> prev_txid@[j] == data@[off + j],
        decreases 32 - k,
    {
        prev_txid[k] = data[off + k];
        k = k + 1;
    }
    assert(prev_txid@ =~= data@.subrange(off as int, off + 32));
    if len - off < 36 {
        return Err("TX truncated while reading input prev_index".to_owned());
    }
    let prev_index = read_le(data, off + 32, 4) as u32;
    let (script_len, used) = match decode_varint(data, off + 36) {
        Ok(x) => x,
        Err(e) => {
            return Err(e);
        },
    };
    let after_len = off + 36 + used;
    let script_len = #[verifier::truncate] (script_len as usize);
    if len - after_len < script_len {
        return Err("TX truncated while reading input scriptSig".to_owned());
    }
    let script_end = after_len + script_len;
    if len - script_end < 4 {
        return Err("TX truncated while reading input sequence".to_owned());
    }
    Ok((TxInput { prev_txid, prev_index }, script_end + 4))
}

fn parse_output(data: &[u8], off: usize) -> (r: Result<(TxOutput, usize), String>)
    requires
        off <= data@.len(),
    ensures
        match r {
            Ok((x, o)) => output_at(data@, off as int) == Ok::<(OutputModel, int), Seq<char>>(
                (x@, o as int),
            ) && o <= data@.len(),
            Err(e) => output_at(data@, off as int) == Err::<(OutputModel, int), Seq<char>>(e@),
        },
{
    let len = data.len();
    if len - off < 8 {
        return Err("TX truncated while reading output value".to_owned());
    }
    let value = read_le(data, off, 8);
    let (script_len, used) = match decode_varint(data, off + 8) {
        Ok(x) => x,
        Err(e) => {
            return Err(e);
        },
    };
    let start = off + 8 + used;
    let script_len = #[verifier::truncate] (script_len as usize);
    if len - start < script_len {
        return Err("TX truncated while reading output scriptPubKey".to_owned());
    }
    let end = start + script_len;
    let script_pubkey = crate::encoding::copy_range(data, start, end);
    Ok((TxOutput { value, script_pubkey }, end))
}

fn skip_witness_items(data: &[u8], offset: usize, past: bool, count: u64, Ghost(off): Ghost<int>) -> (r: Result<(usize, bool), String>)
    requires
        located(off, offset, past, data@.len()),
    ensures
        match r {
            Ok((o, p)) => witness_items_from(data@, off, count as nat) is Ok && located(
                witness_items_from(data@, off, count as nat)->Ok_0,
                o,
                p,
                data@.len(),
            ),
            Err(e) => witness_items_from(data@, off, count as nat) == Err::<int, Seq<char>>(e@),
        },
{
    let len = data.len();
    let mut offset = offset;
    let mut past = past;
    let mut j: u64 = 0;
    while j < count
        invariant
            j <= count,
            len == data@.len(),
            witness_items_from(data@, off, j as nat) is Ok,
            located(witness_items_from(data@, off, j as nat)->Ok_0, offset, past, data@.len()),
        decreases count - j,
    {
        let ghost x = witness_items_from(data@, off, j as nat)->Ok_0;
        let probe = if past { len } else { offset };
        assert(varint_decode(data@, x) == varint_decode(data@, probe as int));
        match decode_varint(data, probe) {
            Err(e) => {
                proof {
                    lemma_witness_items_err(data@, off, (j + 1) as nat, count as nat);
                }
                return Err(e);
            },
            Ok((item_len, used)) => {
                let after = offset + used;
                let item_len = #[verifier::truncate] (item_len as usize);
                if item_len > len - after {
                    past = true;
                } else {
                    offset = after + item_len;
                }
            },
        }
        j = j + 1;
    }
    Ok((offset, past))
}

fn skip_witnesses(data: &[u8], offset: usize, stacks: usize) -> (r: Result<(usize, bool), String>)
    requires
        offset <= data@.len(),
    ensures
        match r {
            Ok((o, p)) => witnesses_from(data@, offset as int, stacks as nat) is Ok && located(
                witnesses_from(data@, offset as int, stacks as nat)->Ok_0,
                o,
                p,
                data@.len(),
            ),
            Err(e) => witnesses_from(data@, offset as int, stacks as nat) == Err::<int, Seq<char>>(
                e@,
            ),
        },
{
    let len = data.len();
    let mut pos = offset;
    let mut past = false;
    let mut k: usize = 0;
    while k < stacks
        invariant
            k <= stacks,
            len == data@.len(),
            offset <= len,
            witnesses_from(data@, offset as int, k as nat) is Ok,
            located(witnesses_from(data@, offset as int, k as nat)->Ok_0, pos, past, data@.len()),
        decreases stacks - k,
    {
        let ghost x = witnesses_from(data@, offset as int, k as nat)->Ok_0;
        let probe = if past { len } else { pos };
        assert(varint_decode(data@, x) == varint_decode(data@, probe as int));
        match decode_varint(data, probe) {
            Err(e) => {
                proof {
                    lemma_witnesses_err(data@, offset as int, (k + 1) as nat, stacks as nat);
                }
                return Err(e);
            },
            Ok((items, used)) => {
                let r = skip_witness_items(data, pos + used, false, items, Ghost(x + used));
                match r {
                    Err(e) => {
                        proof {
                            lemma_witnesses_err(data@, offset as int, (k + 1) as nat, stacks as nat);
                        }
                        return Err(e);
                    },
                    Ok((o, p)) => {
                        pos = o;
                        past = p;
                    },
                }
            },
        }
        k = k + 1;
    }
    Ok((pos, past))
}

} // verus!

verus! {

/// Parses a raw `tx` message payload.
pub fn parse_transaction(data: &[u8]) -> (r: Result<Transaction, String>)
    ensures
        match r {
            Ok(tx) => tx_decode(data@) == Ok::<TxModel, Seq<char>>(tx@),
            Err(e) => tx_decode(data@) == Err::<TxModel, Seq<char>>(e@),
        },
{
    let len = data.len();
    if len < 4 {
        return Err("TX data too short for version field".to_owned());
    }
    let version = (#[verifier::truncate] (read_le(data, 0, 4) as u32)) as i32;
    let is_segwit = len > 5 && data[4] == 0;
    let mut offset: usize = 4;
    if is_segwit {
        if data[5] != 1 {
            return Err("Invalid SegWit flag — expected 0x01".to_owned());
        }
        offset = 6;
    }
    let (input_count, used) = match decode_varint(data, offset) {
        Ok(x) => x,
        Err(e) => {
            return Err(e);
        },
    };
    offset = offset + used;
    let ghost start_in = offset as int;

    let mut inputs: Vec<TxInput> = Vec::new();
    assert(inputs@.map_values(|x: TxInput| x@) =~= Seq::<InputModel>::empty());
    let mut i: u64 = 0;
    while i < input_count
        invariant
            i <= input_count,
            len == data@.len(),
            offset <= len,
            tx_decode(data@) == (match inputs_from(data@, start_in, input_count as nat) {
                Err(e) => Err(e),
                Ok((ins, o)) => after_inputs(data@, o, ins),
            }),
            inputs_from(data@, start_in, i as nat) == Ok::<(Seq<InputModel>, int), Seq<char>>(
                (inputs@.map_values(|x: TxInput| x@), offset as int),
            ),
        decreases input_count - i,
    {
        match parse_input(data, offset) {
            Ok((input, next)) => {
                let ghost before = inputs@;
                inputs.push(input);
                assert(inputs@.map_values(|x: TxInput| x@) =~= before.map_values(|x: TxInput| x@).push(input@));
                offset = next;
            },
            Err(e) => {
                proof {
                    lemma_inputs_err(data@, start_in, (i + 1) as nat, input_count as nat);
                }
                return Err(e);
            },
        }
        i = i + 1;
    }
    let ghost ins = inputs@.map_values(|x: TxInput| x@);
    let ghost after_in = offset as int;

    let (output_count, used) = match decode_varint(data, offset) {
        Ok(x) => x,
        Err(e) => {
            return Err(e);
        },
    };
    offset = offset + used;
    let ghost start_out = offset as int;

    let mut outputs: Vec<TxOutput> = Vec::new();
    assert(outputs@.map_values(|x: TxOutput| x@) =~= Seq::<OutputModel>::empty());
    let mut k: u64 = 0;
    while k < output_count
        invariant
            k <= output_count,
            len == data@.len(),
            offset <= len,
            tx_decode(data@) == (match outputs_from(data@, start_out, output_count as nat) {
                Err(e) => Err(e),
                Ok((outs, o)) => after_outputs(data@, o, ins, outs),
            }),
            ins.len() == inputs@.len(),
            outputs_from(data@, start_out, k as nat) == Ok::<(Seq<OutputModel>, int), Seq<char>>(
                (outputs@.map_values(|x: TxOutput| x@), offset as int),
            ),
        decreases output_count - k,
    {
        match parse_output(data, offset) {
            Ok((output, next)) => {
                let ghost before = outputs@;
                outputs.push(output);
                assert(outputs@.map_values(|x: TxOutput| x@) =~= before.map_values(|x: TxOutput| x@).push(output@));
                offset = next;
            },
            Err(e) => {
                proof {
                    lemma_outputs_err(data@, start_out, (k + 1) as nat, output_count as nat);
                }
                return Err(e);
            },
        }
        k = k + 1;
    }

    let mut past = false;
    if is_segwit {
        match skip_witnesses(data, offset, inputs.len()) {
            Ok((o, p)) => {
                offset = o;
                past = p;
            },
            Err(e) => {
                return Err(e);
            },
        }
    }

    if past || len - offset < 4 {
        return Err("TX truncated while reading locktime".to_owned());
    }
    let locktime = #[verifier::truncate] (read_le(data, offset, 4) as u32);
    let tx = Transaction { version, inputs, outputs, locktime, is_segwit };
    assert(tx@.inputs == ins);
    Ok(tx)
}

} // verus!

verus! {

// ── The wire format, written out ─────────────────────────────────────────────

/// An input as it travels, with the script and sequence the reader skips.
pub struct WireInput {
    pub prev_txid: Seq<u8>,
    pub prev_index: u32,
    pub script_sig: Seq<u8>,
    pub sequence: u32,
}

/// A transaction as it travels. `witnesses` holds one stack of items per
/// input for the SegWit layout, and is `None` for the legacy layout.
pub struct WireTx {
    pub version: i32,
    pub inputs: Seq<WireInput>,
    pub outputs: Seq<OutputModel>,
    pub witnesses: Option<Seq<Seq<Seq<u8>>>>,
    pub locktime: u32,
}

/// The bytes of one input.
pub open spec fn input_bytes(i: WireInput) -> Seq<u8> {
    i.prev_txid + le_bytes(i.prev_index as nat, 4) + varint_bytes(i.script_sig.len() as u64)
        + i.script_sig + le_bytes(i.sequence as nat, 4)
}

/// The bytes of a list of inputs, one after the other.
pub open spec fn inputs_bytes(ins: Seq<WireInput>) -> Seq<u8>
    decreases ins.len(),
{
    if ins.len() == 0 {
        seq![]
    } else {
        inputs_bytes(ins.drop_last()) + input_bytes(ins.last())
    }
}

/// The bytes of one output.
pub open spec fn output_bytes(o: OutputModel) -> Seq<u8> {
    le_bytes(o.value as nat, 8) + varint_bytes(o.script_pubkey.len() as u64) + o.script_pubkey
}

/// The bytes of a list of outputs, one after the other.
pub open spec fn outputs_bytes(outs: Seq<OutputModel>) -> Seq<u8>
    decreases outs.len(),
{
    if outs.len() == 0 {
        seq![]
    } else {
        outputs_bytes(outs.drop_last()) + output_bytes(outs.last())
    }
}

/// The bytes of the items of one witness stack, each preceded by its length.
pub open spec fn items_bytes(items: Seq<Seq<u8>>) -> Seq<u8>
    decreases items.len(),
{
    if items.len() == 0 {
        seq![]
    } else {
        items_bytes(items.drop_last()) + varint_bytes(items.last().len() as u64) + items.last()
    }
}

/// The bytes of the witness stacks, each preceded by its item count.
pub open spec fn stacks_bytes(stacks: Seq<Seq<Seq<u8>>>) -> Seq<u8>
    decreases stacks.len(),
{
    if stacks.len() == 0 {
        seq![]
    } else {
        stacks_bytes(stacks.drop_last()) + varint_bytes(stacks.last().len() as u64) + items_bytes(
            stacks.last(),
        )
    }
}

/// The bytes of a transaction in its layout: legacy, or SegWit with the
/// 0x00 0x01 marker and flag after the version and the witnesses before the
/// locktime.
pub open spec fn tx_bytes(w: WireTx) -> Seq<u8> {
    let body = varint_bytes(w.inputs.len() as u64) + inputs_bytes(w.inputs) + varint_bytes(
        w.outputs.len() as u64,
    ) + outputs_bytes(w.outputs);
    match w.witnesses {
        None => le_bytes((w.version as u32) as nat, 4) + body + le_bytes(w.locktime as nat, 4),
        Some(stacks) => le_bytes((w.version as u32) as nat, 4) + seq![0u8, 1u8] + body
            + stacks_bytes(stacks) + le_bytes(w.locktime as nat, 4),
    }
}

/// What the reader keeps of an input.
pub open spec fn input_model(i: WireInput) -> InputModel {
    InputModel { prev_txid: i.prev_txid, prev_index: i.prev_index }
}

/// What the reader keeps of a transaction: the witnesses, scripts of inputs
/// and sequences are skipped.
pub open spec fn wire_model(w: WireTx) -> TxModel {
    TxModel {
        version: w.version,
        inputs: w.inputs.map_values(|i: WireInput| input_model(i)),
        outputs: w.outputs,
        locktime: w.locktime,
        is_segwit: w.witnesses is Some,
    }
}

/// The lengths a transaction announces fit the reader's integers, txids are
/// 32 bytes, a SegWit transaction has one witness stack per input, and a
/// legacy transaction has at least one input (a zero input count would read
/// as the SegWit marker).
pub open spec fn wire_tx_wf(w: WireTx) -> bool {
    &&& w.inputs.len() <= u64::MAX
    &&& w.outputs.len() <= u64::MAX
    &&& forall|k: int| 0 <= k < w.inputs.len() ==> (#[trigger] w.inputs[k]).prev_txid.len() == 32
        && w.inputs[k].script_sig.len() <= usize::MAX
    &&& forall|k: int| 0 <= k < w.outputs.len() ==> (#[trigger] w.outputs[k]).script_pubkey.len() <= usize::MAX
    &&& match w.witnesses {
        None => w.inputs.len() >= 1,
        Some(stacks) => {
            &&& stacks.len() == w.inputs.len()
            &&& forall|s: int| 0 <= s < stacks.len() ==> (#[trigger] stacks[s]).len() <= u64::MAX
            &&& forall|s: int, t: int|
                0 <= s < stacks.len() && 0 <= t < stacks[s].len() ==> (#[trigger] stacks[s][t]).len()
                    <= usize::MAX
        },
    }
}

proof fn lemma_input_roundtrip(p: Seq<u8>, i: WireInput, q: Seq<u8>)
    requires
        i.prev_txid.len() == 32,
        i.script_sig.len() <= usize::MAX,
    ensures
        input_at(p + input_bytes(i) + q, p.len() as int) == Ok::<(InputModel, int), Seq<char>>(
            (input_model(i), (p.len() + input_bytes(i).len()) as int),
        ),
{
    lemma_pow256_values();
    lemma_le_roundtrip(i.prev_index as nat, 4);
    lemma_le_roundtrip(i.sequence as nat, 4);
    let o = p.len() as int;
    let n = i.script_sig.len() as u64;
    let data = p + input_bytes(i) + q;
    let before = p + i.prev_txid + le_bytes(i.prev_index as nat, 4);
    let after = i.script_sig + le_bytes(i.sequence as nat, 4) + q;
    assert(data =~= before + varint_bytes(n) + after);
    lemma_varint_roundtrip(n, before, after);
    assert(data.subrange(o, o + 32) =~= i.prev_txid);
    assert(data.subrange(o + 32, o + 36) =~= le_bytes(i.prev_index as nat, 4));
}

proof fn lemma_inputs_roundtrip(p: Seq<u8>, ins: Seq<WireInput>, q: Seq<u8>)
    requires
        forall|k: int| 0 <= k < ins.len() ==> (#[trigger] ins[k]).prev_txid.len() == 32
            && ins[k].script_sig.len() <= usize::MAX,
    ensures
        inputs_from(p + inputs_bytes(ins) + q, p.len() as int, ins.len()) == Ok::<(Seq<InputModel>, int), Seq<char>>(
            (ins.map_values(|i: WireInput| input_model(i)), (p.len() + inputs_bytes(ins).len()) as int),
        ),
    decreases ins.len(),
{
    if ins.len() == 0 {
        assert(p + inputs_bytes(ins) + q =~= p + q);
        assert(ins.map_values(|i: WireInput| input_model(i)) =~= Seq::<InputModel>::empty());
    } else {
        let r = ins.drop_last();
        let last = ins.last();
        assert(last == ins[ins.len() - 1]);
        lemma_inputs_roundtrip(p, r, input_bytes(last) + q);
        assert(p + inputs_bytes(ins) + q =~= p + inputs_bytes(r) + (input_bytes(last) + q));
        assert(p + inputs_bytes(ins) + q =~= (p + inputs_bytes(r)) + input_bytes(last) + q);
        lemma_input_roundtrip(p + inputs_bytes(r), last, q);
        assert(ins.map_values(|i: WireInput| input_model(i)) =~= r.map_values(|i: WireInput| input_model(i)).push(
            input_model(last),
        ));
    }
}

proof fn lemma_output_roundtrip(p: Seq<u8>, o: OutputModel, q: Seq<u8>)
    requires
        o.script_pubkey.len() <= usize::MAX,
    ensures
        output_at(p + output_bytes(o) + q, p.len() as int) == Ok::<(OutputModel, int), Seq<char>>(
            (o, (p.len() + output_bytes(o).len()) as int),
        ),
{
    lemma_pow256_values();
    lemma_le_roundtrip(o.value as nat, 8);
    let off = p.len() as int;
    let n = o.script_pubkey.len() as u64;
    let data = p + output_bytes(o) + q;
    let before = p + le_bytes(o.value as nat, 8);
    assert(data =~= before + varint_bytes(n) + (o.script_pubkey + q));
    lemma_varint_roundtrip(n, before, o.script_pubkey + q);
    assert(data.subrange(off, off + 8) =~= le_bytes(o.value as nat, 8));
    let start = off + 8 + varint_bytes(n).len();
    assert(data.subrange(start, start + o.script_pubkey.len()) =~= o.script_pubkey);
}

proof fn lemma_outputs_roundtrip(p: Seq<u8>, outs: Seq<OutputModel>, q: Seq<u8>)
    requires
        forall|k: int| 0 <= k < outs.len() ==> (#[trigger] outs[k]).script_pubkey.len() <= usize::MAX,
    ensures
        outputs_from(p + outputs_bytes(outs) + q, p.len() as int, outs.len()) == Ok::<(Seq<OutputModel>, int), Seq<char>>(
            (outs, (p.len() + outputs_bytes(outs).len()) as int),
        ),
    decreases outs.len(),
{
    if outs.len() == 0 {
        assert(p + outputs_bytes(outs) + q =~= p + q);
        assert(outs =~= Seq::<OutputModel>::empty());
    } else {
        let r = outs.drop_last();
        let last = outs.last();
        assert(last == outs[outs.len() - 1]);
        lemma_outputs_roundtrip(p, r, output_bytes(last) + q);
        assert(p + outputs_bytes(outs) + q =~= p + outputs_bytes(r) + (output_bytes(last) + q));
        assert(p + outputs_bytes(outs) + q =~= (p + outputs_bytes(r)) + output_bytes(last) + q);
        lemma_output_roundtrip(p + outputs_bytes(r), last, q);
        assert(outs =~= r.push(last));
    }
}

proof fn lemma_items_roundtrip(p: Seq<u8>, items: Seq<Seq<u8>>, q: Seq<u8>)
    requires
        forall|t: int| 0 <= t < items.len() ==> (#[trigger] items[t]).len() <= usize::MAX,
    ensures
        witness_items_from(p + items_bytes(items) + q, p.len() as int, items.len()) == Ok::<int, Seq<char>>(
            (p.len() + items_bytes(items).len()) as int,
        ),
    decreases items.len(),
{
    if items.len() == 0 {
    } else {
        let r = items.drop_last();
        let last = items.last();
        assert(last == items[items.len() - 1]);
        let tail = varint_bytes(last.len() as u64) + last;
        lemma_items_roundtrip(p, r, tail + q);
        assert(p + items_bytes(items) + q =~= p + items_bytes(r) + (tail + q));
        assert(p + items_bytes(items) + q =~= (p + items_bytes(r)) + varint_bytes(last.len() as u64)
            + (last + q));
        lemma_varint_roundtrip(last.len() as u64, p + items_bytes(r), last + q);
    }
}

proof fn lemma_stacks_roundtrip(p: Seq<u8>, stacks: Seq<Seq<Seq<u8>>>, q: Seq<u8>)
    requires
        forall|s: int| 0 <= s < stacks.len() ==> (#[trigger] stacks[s]).len() <= u64::MAX,
        forall|s: int, t: int|
            0 <= s < stacks.len() && 0 <= t < stacks[s].len() ==> (#[trigger] stacks[s][t]).len() <= usize::MAX,
    ensures
        witnesses_from(p + stacks_bytes(stacks) + q, p.len() as int, stacks.len()) == Ok::<int, Seq<char>>(
            (p.len() + stacks_bytes(stacks).len()) as int,
        ),
    decreases stacks.len(),
{
    if stacks.len() == 0 {
    } else {
        let r = stacks.drop_last();
        let last = stacks.last();
        assert(last == stacks[stacks.len() - 1]);
        assert forall|s: int, t: int| 0 <= s < r.len() && 0 <= t < r[s].len() implies (#[trigger] r[s][t]).len()
            <= usize::MAX by {
            assert(r[s] == stacks[s]);
        }
        let tail = varint_bytes(last.len() as u64) + items_bytes(last);
        lemma_stacks_roundtrip(p, r, tail + q);
        let pre = p + stacks_bytes(r);
        assert(p + stacks_bytes(stacks) + q =~= p + stacks_bytes(r) + (tail + q));
        assert(p + stacks_bytes(stacks) + q =~= pre + varint_bytes(last.len() as u64) + (items_bytes(last)
            + q));
        lemma_varint_roundtrip(last.len() as u64, pre, items_bytes(last) + q);
        assert(p + stacks_bytes(stacks) + q =~= (pre + varint_bytes(last.len() as u64)) + items_bytes(last)
            + q);
        assert forall|t: int| 0 <= t < last.len() implies (#[trigger] last[t]).len() <= usize::MAX by {
            assert(stacks[stacks.len() - 1][t] == last[t]);
        }
        lemma_items_roundtrip(pre + varint_bytes(last.len() as u64), last, q);
    }
}

} // verus!

verus! {

/// The bytes of the counts, inputs and outputs.
pub open spec fn body_bytes(w: WireTx) -> Seq<u8> {
    varint_bytes(w.inputs.len() as u64) + inputs_bytes(w.inputs) + varint_bytes(w.outputs.len() as u64)
        + outputs_bytes(w.outputs)
}

proof fn lemma_body_roundtrip(head: Seq<u8>, w: WireTx, tail: Seq<u8>)
    requires
        wire_tx_wf(w),
    ensures
        ({
            let data = head + body_bytes(w) + tail;
            let p = head.len() as int;
            let vin = varint_bytes(w.inputs.len() as u64).len() as int;
            let o1 = p + vin + inputs_bytes(w.inputs).len();
            let vout = varint_bytes(w.outputs.len() as u64).len() as int;
            &&& varint_decode(data, p) == Ok::<(u64, usize), Seq<char>>((w.inputs.len() as u64, vin as usize))
            &&& inputs_from(data, p + vin, w.inputs.len()) == Ok::<(Seq<InputModel>, int), Seq<char>>(
                (w.inputs.map_values(|i: WireInput| input_model(i)), o1),
            )
            &&& varint_decode(data, o1) == Ok::<(u64, usize), Seq<char>>((w.outputs.len() as u64, vout as usize))
            &&& outputs_from(data, o1 + vout, w.outputs.len()) == Ok::<(Seq<OutputModel>, int), Seq<char>>(
                (w.outputs, p + body_bytes(w).len()),
            )
        }),
{
    let vin = varint_bytes(w.inputs.len() as u64);
    let ins = inputs_bytes(w.inputs);
    let vout = varint_bytes(w.outputs.len() as u64);
    let outs = outputs_bytes(w.outputs);
    let data = head + body_bytes(w) + tail;
    assert(data =~= head + vin + (ins + vout + outs + tail));
    lemma_varint_roundtrip(w.inputs.len() as u64, head, ins + vout + outs + tail);
    assert(data =~= (head + vin) + ins + (vout + outs + tail));
    lemma_inputs_roundtrip(head + vin, w.inputs, vout + outs + tail);
    assert(data =~= (head + vin + ins) + vout + (outs + tail));
    lemma_varint_roundtrip(w.outputs.len() as u64, head + vin + ins, outs + tail);
    assert(data =~= (head + vin + ins + vout) + outs + tail);
    lemma_outputs_roundtrip(head + vin + ins + vout, w.outputs, tail);
}

/// How `tx_decode` reads a payload once each of its steps is known.
proof fn lemma_decode_steps(
    data: Seq<u8>,
    start: int,
    n_in: u64,
    vin: usize,
    models: Seq<InputModel>,
    o1: int,
    n_out: u64,
    vout: usize,
    outs: Seq<OutputModel>,
    o2: int,
    e: int,
)
    requires
        data.len() >= 6,
        start == (if segwit_marked(data) { 6int } else { 4int }),
        segwit_marked(data) ==> data[5] == 1,
        varint_decode(data, start) == Ok::<(u64, usize), Seq<char>>((n_in, vin)),
        inputs_from(data, start + vin, n_in as nat) == Ok::<(Seq<InputModel>, int), Seq<char>>((models, o1)),
        varint_decode(data, o1) == Ok::<(u64, usize), Seq<char>>((n_out, vout)),
        outputs_from(data, o1 + vout, n_out as nat) == Ok::<(Seq<OutputModel>, int), Seq<char>>((outs, o2)),
        segwit_marked(data) ==> witnesses_from(data, o2, models.len()) == Ok::<int, Seq<char>>(e),
        !segwit_marked(data) ==> e == o2,
        data.len() >= e + 4,
    ensures
        tx_decode(data) == Ok::<TxModel, Seq<char>>(
            TxModel {
                version: (le_value(data.subrange(0, 4)) as u32) as i32,
                inputs: models,
                outputs: outs,
                locktime: le_value(data.subrange(e, e + 4)) as u32,
                is_segwit: segwit_marked(data),
            },
        ),
{
}

proof fn lemma_legacy_roundtrip(w: WireTx, rest: Seq<u8>)
    requires
        wire_tx_wf(w),
        w.witnesses is None,
    ensures
        tx_decode(tx_bytes(w) + rest) == Ok::<TxModel, Seq<char>>(wire_model(w)),
{
    lemma_pow256_values();
    let ver = le_bytes((w.version as u32) as nat, 4);
    let lt = le_bytes(w.locktime as nat, 4);
    lemma_le_roundtrip((w.version as u32) as nat, 4);
    lemma_le_roundtrip(w.locktime as nat, 4);
    let v = w.version;
    assert(((v as u32) as i32) == v) by (bit_vector);
    lemma_varint_first_byte(w.inputs.len() as u64);
    let body = body_bytes(w);
    let data = tx_bytes(w) + rest;
    assert(data =~= ver + body + (lt + rest));
    lemma_body_roundtrip(ver, w, lt + rest);
    assert(data[4] == varint_bytes(w.inputs.len() as u64)[0]);
    assert(data.subrange(0, 4) =~= ver);
    let e = (4 + body.len()) as int;
    assert(data.subrange(e, e + 4) =~= lt);
    let n_in: u64 = w.inputs.len() as u64;
    let n_out: u64 = w.outputs.len() as u64;
    lemma_varint_roundtrip(n_in, seq![], seq![]);
    lemma_varint_roundtrip(n_out, seq![], seq![]);
    let vin: usize = varint_bytes(n_in).len() as usize;
    let vout: usize = varint_bytes(n_out).len() as usize;
    let models = w.inputs.map_values(|i: WireInput| input_model(i));
    let o1: int = 4 + vin + inputs_bytes(w.inputs).len();
    assert(n_in as nat == w.inputs.len());
    assert(n_out as nat == w.outputs.len());
    assert(varint_decode(data, 4) == Ok::<(u64, usize), Seq<char>>((n_in, vin)));
    assert(inputs_from(data, 4 + vin, n_in as nat) == Ok::<(Seq<InputModel>, int), Seq<char>>((models, o1)));
    assert(varint_decode(data, o1) == Ok::<(u64, usize), Seq<char>>((n_out, vout)));
    assert(outputs_from(data, o1 + vout, n_out as nat) == Ok::<(Seq<OutputModel>, int), Seq<char>>((w.outputs, e)));
    lemma_decode_steps(data, 4, n_in, vin, models, o1, n_out, vout, w.outputs, e, e);
}

proof fn lemma_segwit_read(w: WireTx, head: Seq<u8>, lt: Seq<u8>, rest: Seq<u8>)
    requires
        wire_tx_wf(w),
        w.witnesses is Some,
        head.len() == 6,
        head[4] == 0,
        head[5] == 1,
        lt.len() == 4,
    ensures
        tx_decode(head + body_bytes(w) + stacks_bytes(w.witnesses->Some_0) + lt + rest) == Ok::<TxModel, Seq<char>>(
            TxModel {
                version: (le_value(head.subrange(0, 4)) as u32) as i32,
                inputs: w.inputs.map_values(|i: WireInput| input_model(i)),
                outputs: w.outputs,
                locktime: le_value(lt) as u32,
                is_segwit: true,
            },
        ),
{
    let stacks = w.witnesses->Some_0;
    let body = body_bytes(w);
    let sw = stacks_bytes(stacks);
    let data = head + body + sw + lt + rest;
    let o2: int = (6 + body.len()) as int;
    let e: int = o2 + sw.len();
    assert(data.subrange(0, 4) =~= head.subrange(0, 4));
    assert(data.subrange(e, e + 4) =~= lt);
    assert(data[4] == 0 && data[5] == 1);
    assert(witnesses_from(data, o2, w.inputs.len()) == Ok::<int, Seq<char>>(e)) by {
        assert(data =~= (head + body) + sw + (lt + rest));
        lemma_stacks_roundtrip(head + body, stacks, lt + rest);
    }
    let n_in: u64 = w.inputs.len() as u64;
    let n_out: u64 = w.outputs.len() as u64;
    lemma_varint_roundtrip(n_in, seq![], seq![]);
    lemma_varint_roundtrip(n_out, seq![], seq![]);
    let vin: usize = varint_bytes(n_in).len() as usize;
    let vout: usize = varint_bytes(n_out).len() as usize;
    let models = w.inputs.map_values(|i: WireInput| input_model(i));
    let o1: int = 6 + vin + inputs_bytes(w.inputs).len();
    assert({
        &&& varint_decode(data, 6) == Ok::<(u64, usize), Seq<char>>((n_in, vin))
        &&& inputs_from(data, 6 + vin, n_in as nat) == Ok::<(Seq<InputModel>, int), Seq<char>>((models, o1))
        &&& varint_decode(data, o1) == Ok::<(u64, usize), Seq<char>>((n_out, vout))
        &&& outputs_from(data, o1 + vout, n_out as nat) == Ok::<(Seq<OutputModel>, int), Seq<char>>(
            (w.outputs, o2),
        )
    }) by {
        assert(n_in as nat == w.inputs.len());
        assert(n_out as nat == w.outputs.len());
        assert(data =~= head + body + (sw + lt + rest));
        lemma_body_roundtrip(head, w, sw + lt + rest);
    }
    lemma_decode_steps(data, 6, n_in, vin, models, o1, n_out, vout, w.outputs, o2, e);
}

proof fn lemma_segwit_roundtrip(w: WireTx, rest: Seq<u8>)
    requires
        wire_tx_wf(w),
        w.witnesses is Some,
    ensures
        tx_decode(tx_bytes(w) + rest) == Ok::<TxModel, Seq<char>>(wire_model(w)),
{
    let ver = le_bytes((w.version as u32) as nat, 4);
    let lt = le_bytes(w.locktime as nat, 4);
    let head = ver + seq![0u8, 1u8];
    lemma_pow256_values();
    lemma_le_roundtrip((w.version as u32) as nat, 4);
    lemma_le_roundtrip(w.locktime as nat, 4);
    let v = w.version;
    assert(((v as u32) as i32) == v) by (bit_vector);
    assert(head.subrange(0, 4) =~= ver);
    assert(tx_bytes(w) + rest =~= head + body_bytes(w) + stacks_bytes(w.witnesses->Some_0) + lt + rest);
    lemma_segwit_read(w, head, lt, rest);
}

/// A transaction written out in its layout, legacy or SegWit, reads back as
/// the same transaction, whatever bytes follow its locktime: version,
/// outpoints, outputs, locktime and layout are given back, and the scripts
/// of inputs, sequences and witnesses are skipped.
pub proof fn lemma_tx_roundtrip(w: WireTx, rest: Seq<u8>)
    requires
        wire_tx_wf(w),
    ensures
        tx_decode(tx_bytes(w) + rest) == Ok::<TxModel, Seq<char>>(wire_model(w)),
{
    if w.witnesses is None {
        lemma_legacy_roundtrip(w, rest);
    } else {
        lemma_segwit_roundtrip(w, rest);
    }
}

} // verus!

verus! {

// ── Bytes after the locktime ─────────────────────────────────────────────────

proof fn lemma_input_extend(data: Seq<u8>, extra: Seq<u8>, off: int)
    requires
        off >= 0,
        input_at(data, off) is Ok,
    ensures
        input_at(data + extra, off) == input_at(data, off),
        off < (input_at(data, off)->Ok_0).1 <= data.len(),
{
    lemma_varint_extend(data, extra, off + 36);
    let d = data + extra;
    assert(d.subrange(off, off + 32) =~= data.subrange(off, off + 32));
    assert(d.subrange(off + 32, off + 36) =~= data.subrange(off + 32, off + 36));
}

proof fn lemma_inputs_extend(data: Seq<u8>, extra: Seq<u8>, off: int, count: nat)
    requires
        off >= 0,
        inputs_from(data, off, count) is Ok,
    ensures
        inputs_from(data + extra, off, count) == inputs_from(data, off, count),
        off <= (inputs_from(data, off, count)->Ok_0).1,
        count > 0 ==> (inputs_from(data, off, count)->Ok_0).1 <= data.len(),
    decreases count,
{
    if count > 0 {
        lemma_inputs_extend(data, extra, off, (count - 1) as nat);
        let o = (inputs_from(data, off, (count - 1) as nat)->Ok_0).1;
        lemma_input_extend(data, extra, o);
    }
}

proof fn lemma_output_extend(data: Seq<u8>, extra: Seq<u8>, off: int)
    requires
        off >= 0,
        output_at(data, off) is Ok,
    ensures
        output_at(data + extra, off) == output_at(data, off),
        off < (output_at(data, off)->Ok_0).1 <= data.len(),
{
    lemma_varint_extend(data, extra, off + 8);
    let d = data + extra;
    let (n, used) = varint_decode(data, off + 8)->Ok_0;
    let start: int = off + 8 + used;
    let end: int = start + (n as usize);
    assert(d.subrange(off, off + 8) =~= data.subrange(off, off + 8));
    assert(d.subrange(start, end) =~= data.subrange(start, end));
}

proof fn lemma_outputs_extend(data: Seq<u8>, extra: Seq<u8>, off: int, count: nat)
    requires
        off >= 0,
        outputs_from(data, off, count) is Ok,
    ensures
        outputs_from(data + extra, off, count) == outputs_from(data, off, count),
        off <= (outputs_from(data, off, count)->Ok_0).1,
        count > 0 ==> (outputs_from(data, off, count)->Ok_0).1 <= data.len(),
    decreases count,
{
    if count > 0 {
        lemma_outputs_extend(data, extra, off, (count - 1) as nat);
        let o = (outputs_from(data, off, (count - 1) as nat)->Ok_0).1;
        lemma_output_extend(data, extra, o);
    }
}

proof fn lemma_items_extend(data: Seq<u8>, extra: Seq<u8>, off: int, count: nat)
    requires
        off >= 0,
        witness_items_from(data, off, count) is Ok,
    ensures
        witness_items_from(data + extra, off, count) == witness_items_from(data, off, count),
        off <= witness_items_from(data, off, count)->Ok_0,
    decreases count,
{
    if count > 0 {
        lemma_items_extend(data, extra, off, (count - 1) as nat);
        let o = witness_items_from(data, off, (count - 1) as nat)->Ok_0;
        lemma_varint_extend(data, extra, o);
    }
}

proof fn lemma_witnesses_extend(data: Seq<u8>, extra: Seq<u8>, off: int, stacks: nat)
    requires
        off >= 0,
        witnesses_from(data, off, stacks) is Ok,
    ensures
        witnesses_from(data + extra, off, stacks) == witnesses_from(data, off, stacks),
        off <= witnesses_from(data, off, stacks)->Ok_0,
    decreases stacks,
{
    if stacks > 0 {
        lemma_witnesses_extend(data, extra, off, (stacks - 1) as nat);
        let o = witnesses_from(data, off, (stacks - 1) as nat)->Ok_0;
        lemma_varint_extend(data, extra, o);
        let (items, used) = varint_decode(data, o)->Ok_0;
        lemma_items_extend(data, extra, o + used, items as nat);
    }
}

proof fn lemma_after_inputs_extend(data: Seq<u8>, extra: Seq<u8>, off: int, ins: Seq<InputModel>)
    requires
        off >= 5,
        after_inputs(data, off, ins) is Ok,
    ensures
        after_inputs(data + extra, off, ins) == after_inputs(data, off, ins),
        data.len() >= 10,
{
    let d = data + extra;
    lemma_varint_extend(data, extra, off);
    let (n_out, used) = varint_decode(data, off)->Ok_0;
    lemma_outputs_extend(data, extra, off + used, n_out as nat);
    let o = (outputs_from(data, off + used, n_out as nat)->Ok_0).1;
    let e: int = if segwit_marked(data) {
        lemma_witnesses_extend(data, extra, o, ins.len());
        witnesses_from(data, o, ins.len())->Ok_0
    } else {
        o
    };
    assert(data.len() >= e + 4);
    assert(segwit_marked(d) == segwit_marked(data));
    assert(d.subrange(0, 4) =~= data.subrange(0, 4));
    assert(d.subrange(e, e + 4) =~= data.subrange(e, e + 4));
}

/// Bytes that follow a transaction which reads in full are never read: the
/// payload with anything appended reads as the same transaction.
pub proof fn lemma_tx_decode_extend(data: Seq<u8>, extra: Seq<u8>)
    requires
        tx_decode(data) is Ok,
    ensures
        tx_decode(data + extra) == tx_decode(data),
{
    let d = data + extra;
    let start: int = if segwit_marked(data) { 6 } else { 4 };
    lemma_varint_extend(data, extra, start);
    let (n_in, used) = varint_decode(data, start)->Ok_0;
    lemma_inputs_extend(data, extra, start + used, n_in as nat);
    let (ins, o) = inputs_from(data, start + used, n_in as nat)->Ok_0;
    lemma_after_inputs_extend(data, extra, o, ins);
    assert(segwit_marked(d) == segwit_marked(data));
    assert(d[5] == data[5]);
}

} // verus!

verus! {

// ── A transaction cut short ──────────────────────────────────────────────────

proof fn lemma_locktime_top_byte(a: u32, b: u32)
    requires
        b == a ^ 0x8000_0000u32,
    ensures
        a != b,
        le_bytes(a as nat, 4).len() == 4,
        le_bytes(b as nat, 4).len() == 4,
        forall|i: int| 0 <= i < 3 ==> le_bytes(a as nat, 4)[i] == le_bytes(b as nat, 4)[i],
{
    assert(a != b && b % 256 == a % 256 && (b / 256) % 256 == (a / 256) % 256 && (b / 256 / 256) % 256
        == (a / 256 / 256) % 256) by (bit_vector)
        requires
            b == a ^ 0x8000_0000u32,
    ;
    lemma_le_bytes_len(a as nat, 4);
    lemma_le_bytes_len(b as nat, 4);
    reveal_with_fuel(le_bytes, 4);
}

/// The bytes of a transaction and of the same one with another top byte of
/// the locktime agree up to that byte.
proof fn lemma_locktime_flip_prefix(w: WireTx, k: int)
    requires
        0 <= k < tx_bytes(w).len(),
    ensures
        ({
            let w2 = WireTx { locktime: w.locktime ^ 0x8000_0000u32, ..w };
            &&& tx_bytes(w2).take(k) == tx_bytes(w).take(k)
            &&& tx_bytes(w2).len() == tx_bytes(w).len()
            &&& wire_model(w2).locktime != wire_model(w).locktime
        }),
{
    let w2 = WireTx { locktime: w.locktime ^ 0x8000_0000u32, ..w };
    lemma_locktime_top_byte(w.locktime, w2.locktime);
    let ver = le_bytes((w.version as u32) as nat, 4);
    let x = match w.witnesses {
        None => ver + body_bytes(w),
        Some(stacks) => ver + seq![0u8, 1u8] + body_bytes(w) + stacks_bytes(stacks),
    };
    assert(tx_bytes(w) =~= x + le_bytes(w.locktime as nat, 4));
    assert(tx_bytes(w2) =~= x + le_bytes(w2.locktime as nat, 4));
    assert(tx_bytes(w2).take(k) =~= tx_bytes(w).take(k));
}

/// A transaction written out in its layout and cut short anywhere before the
/// end of its locktime does not read.
pub proof fn lemma_tx_truncated(w: WireTx, k: int)
    requires
        wire_tx_wf(w),
        0 <= k < tx_bytes(w).len(),
    ensures
        tx_decode(tx_bytes(w).take(k)) is Err,
{
    let full = tx_bytes(w);
    let p = full.take(k);
    if tx_decode(p) is Ok {
        let w2 = WireTx { locktime: w.locktime ^ 0x8000_0000u32, ..w };
        let full2 = tx_bytes(w2);
        lemma_locktime_flip_prefix(w, k);
        assert(wire_tx_wf(w2));
        assert(p + full.skip(k) =~= full + seq![]);
        assert(p + full2.skip(k) =~= full2 + seq![]);
        lemma_tx_decode_extend(p, full.skip(k));
        lemma_tx_decode_extend(p, full2.skip(k));
        lemma_tx_roundtrip(w, seq![]);
        lemma_tx_roundtrip(w2, seq![]);
    }
}

} // verus!
