//! Transport encoding of the transaction under construction. A transaction
//! travels between peers as a hex string: the four sequences are laid out
//! as 64-bit little-endian words (the two counts first, then three words
//! per input pair and two per output pair), and the bytes are hex encoded.
//! Decoding accepts exactly the well-formed images, and decoding an
//! encoding gives back the original transaction.

use vstd::bytes::{
    lemma_auto_spec_u64_to_from_le_bytes, spec_u64_from_le_bytes, spec_u64_to_le_bytes,
    u64_from_le_bytes, u64_to_le_bytes,
};
use vstd::prelude::*;
use vstd::slice::slice_subrange;

use crate::transaction::{InputMeta, NodeId, OutputMeta, Transaction, TxInput, TxOutput, TxView};

verus! {

// ---------------------------------------------------------------------
// Hex digits.
// ---------------------------------------------------------------------
/// The lowercase hex digit for a value below sixteen.
pub open spec fn hex_digit_char(n: int) -> char {
    if n == 0 {
        '0'
    } else if n == 1 {
        '1'
    } else if n == 2 {
        '2'
    } else if n == 3 {
        '3'
    } else if n == 4 {
        '4'
    } else if n == 5 {
        '5'
    } else if n == 6 {
        '6'
    } else if n == 7 {
        '7'
    } else if n == 8 {
        '8'
    } else if n == 9 {
        '9'
    } else if n == 10 {
        'a'
    } else if n == 11 {
        'b'
    } else if n == 12 {
        'c'
    } else if n == 13 {
        'd'
    } else if n == 14 {
        'e'
    } else {
        'f'
    }
}

/// The value of a hex digit, either case; minus one for any other character.
pub open spec fn hex_char_val(c: char) -> int {
    if c == '0' {
        0
    } else if c == '1' {
        1
    } else if c == '2' {
        2
    } else if c == '3' {
        3
    } else if c == '4' {
        4
    } else if c == '5' {
        5
    } else if c == '6' {
        6
    } else if c == '7' {
        7
    } else if c == '8' {
        8
    } else if c == '9' {
        9
    } else if c == 'a' || c == 'A' {
        10
    } else if c == 'b' || c == 'B' {
        11
    } else if c == 'c' || c == 'C' {
        12
    } else if c == 'd' || c == 'D' {
        13
    } else if c == 'e' || c == 'E' {
        14
    } else if c == 'f' || c == 'F' {
        15
    } else {
        -1
    }
}

/// The lowercase hex rendering of a byte sequence, high nibble first.
pub open spec fn hex_of(b: Seq<u8>) -> Seq<char> {
    Seq::new(
        b.len() * 2,
        |k: int|
            if k % 2 == 0 {
                hex_digit_char(b[k / 2] as int / 16)
            } else {
                hex_digit_char(b[k / 2] as int % 16)
            },
    )
}

/// A string that hex-decodes: even length, hex digits throughout.
pub open spec fn valid_hex(s: Seq<char>) -> bool {
    &&& s.len() % 2 == 0
    &&& forall|k: int| 0 <= k < s.len() ==> hex_char_val(#[trigger] s[k]) >= 0
}

/// The bytes a valid hex string denotes, high nibble first.
pub open spec fn bytes_of_hex(s: Seq<char>) -> Seq<u8> {
    Seq::new(
        s.len() / 2,
        |i: int| (hex_char_val(s[2 * i]) * 16 + hex_char_val(s[2 * i + 1])) as u8,
    )
}

/// Relies on hex::encode: one pair of lowercase hex digits per byte, high
/// nibble first.
#[verifier::external_body]
fn hex_encode(b: &Vec<u8>) -> (r: String)
    ensures
        r@ == hex_of(b@),
{
    hex::encode(b.as_slice())
}

/// Relies on hex::decode: it succeeds exactly on even-length strings of
/// hex digits (either case), turning each digit pair into one byte, high
/// nibble first.
#[verifier::external_body]
fn hex_decode(s: &str) -> (r: Option<Vec<u8>>)
    ensures
        r is Some <==> valid_hex(s@),
        r matches Some(v) ==> v@ == bytes_of_hex(s@),
{
    hex::decode(s).ok()
}

/// Hex encoding is lossless: its result is valid and decodes to the bytes.
pub proof fn lemma_hex_round_trip(b: Seq<u8>)
    ensures
        valid_hex(hex_of(b)),
        bytes_of_hex(hex_of(b)) == b,
{
    let h = hex_of(b);
    assert forall|k: int| 0 <= k < h.len() implies hex_char_val(#[trigger] h[k]) >= 0 by {
        let v = b[k / 2] as int;
        assert(0 <= v / 16 < 16);
        assert(0 <= v % 16 < 16);
    }
    assert forall|i: int| 0 <= i < b.len() implies bytes_of_hex(h)[i] == b[i] by {
        let v = b[i] as int;
        assert(hex_char_val(h[2 * i]) == v / 16);
        assert(hex_char_val(h[2 * i + 1]) == v % 16);
        assert(v / 16 * 16 + v % 16 == v);
    }
    assert(bytes_of_hex(h) =~= b);
}

// ---------------------------------------------------------------------
// Words and bytes.
// ---------------------------------------------------------------------
/// The little-endian byte layout of a word sequence.
pub open spec fn words_bytes(ws: Seq<u64>) -> Seq<u8>
    decreases ws.len(),
{
    if ws.len() == 0 {
        Seq::empty()
    } else {
        words_bytes(ws.drop_last()) + spec_u64_to_le_bytes(ws.last())
    }
}

/// The words read back from a byte sequence, eight bytes apiece.
pub open spec fn bytes_words(b: Seq<u8>) -> Seq<u64> {
    Seq::new(b.len() / 8, |j: int| spec_u64_from_le_bytes(b.subrange(8 * j, 8 * j + 8)))
}

pub proof fn lemma_words_bytes_len(ws: Seq<u64>)
    ensures
        words_bytes(ws).len() == 8 * ws.len(),
    decreases ws.len(),
{
    lemma_auto_spec_u64_to_from_le_bytes();
    if ws.len() > 0 {
        lemma_words_bytes_len(ws.drop_last());
    }
}

proof fn lemma_words_bytes_index(ws: Seq<u64>, j: int)
    requires
        0 <= j < ws.len(),
    ensures
        words_bytes(ws).subrange(8 * j, 8 * j + 8) == spec_u64_to_le_bytes(ws[j]),
    decreases ws.len(),
{
    lemma_auto_spec_u64_to_from_le_bytes();
    lemma_words_bytes_len(ws);
    lemma_words_bytes_len(ws.drop_last());
    if j == ws.len() - 1 {
        assert(words_bytes(ws).subrange(8 * j, 8 * j + 8) =~= spec_u64_to_le_bytes(ws[j]));
    } else {
        lemma_words_bytes_index(ws.drop_last(), j);
        assert(words_bytes(ws).subrange(8 * j, 8 * j + 8) =~= words_bytes(
            ws.drop_last(),
        ).subrange(8 * j, 8 * j + 8));
    }
}

/// Reading words back from their byte layout gives the original words.
pub proof fn lemma_bytes_words_round_trip(ws: Seq<u64>)
    ensures
        bytes_words(words_bytes(ws)) == ws,
{
    lemma_auto_spec_u64_to_from_le_bytes();
    lemma_words_bytes_len(ws);
    assert forall|j: int| 0 <= j < ws.len() implies bytes_words(words_bytes(ws))[j] == ws[j] by {
        lemma_words_bytes_index(ws, j);
    }
    assert(bytes_words(words_bytes(ws)) =~= ws);
}

// ---------------------------------------------------------------------
// Transactions and words.
// ---------------------------------------------------------------------
/// The words of the aligned input sequences: three per pair.
pub open spec fn input_words(metas: Seq<InputMeta>, raws: Seq<TxInput>) -> Seq<u64>
    decreases metas.len(),
{
    if metas.len() == 0 {
        Seq::empty()
    } else {
        input_words(metas.drop_last(), raws.drop_last()) + seq![
            metas.last().owner.key,
            metas.last().sig,
            raws.last().txid,
        ]
    }
}

/// The words of the aligned output sequences: two per pair.
pub open spec fn output_words(metas: Seq<OutputMeta>, raws: Seq<TxOutput>) -> Seq<u64>
    decreases metas.len(),
{
    if metas.len() == 0 {
        Seq::empty()
    } else {
        output_words(metas.drop_last(), raws.drop_last()) + seq![
            metas.last().tag,
            raws.last().value,
        ]
    }
}

/// The word layout of a whole transaction: both counts, then the pairs.
pub open spec fn tx_words(t: TxView) -> Seq<u64> {
    seq![t.input_metas.len() as u64, t.output_metas.len() as u64] + input_words(
        t.input_metas,
        t.inputs,
    ) + output_words(t.output_metas, t.outputs)
}

/// The transport bytes of a transaction.
pub open spec fn tx_bytes(t: TxView) -> Seq<u8> {
    words_bytes(tx_words(t))
}

/// The transport hex string of a transaction.
pub open spec fn tx_hex(t: TxView) -> Seq<char> {
    hex_of(tx_bytes(t))
}

/// The transaction a word sequence denotes, when it is well formed.
pub open spec fn words_decode(ws: Seq<u64>) -> Option<TxView> {
    if ws.len() < 2 {
        None
    } else {
        let ni = ws[0] as int;
        let no = ws[1] as int;
        if ws.len() != 2 + 3 * ni + 2 * no {
            None
        } else {
            Some(
                TxView {
                    input_metas: Seq::new(
                        ni as nat,
                        |i: int|
                            InputMeta { owner: NodeId { key: ws[2 + 3 * i] }, sig: ws[2 + 3 * i + 1] },
                    ),
                    inputs: Seq::new(ni as nat, |i: int| TxInput { txid: ws[2 + 3 * i + 2] }),
                    output_metas: Seq::new(
                        no as nat,
                        |i: int| OutputMeta { tag: ws[2 + 3 * ni + 2 * i] },
                    ),
                    outputs: Seq::new(
                        no as nat,
                        |i: int| TxOutput { value: ws[2 + 3 * ni + 2 * i + 1] },
                    ),
                },
            )
        }
    }
}

/// The transaction a byte sequence denotes.
pub open spec fn bytes_decode(b: Seq<u8>) -> Option<TxView> {
    if b.len() % 8 != 0 {
        None
    } else {
        words_decode(bytes_words(b))
    }
}

/// The transaction a transport hex string denotes.
pub open spec fn tx_of_hex(s: Seq<char>) -> Option<TxView> {
    if !valid_hex(s) {
        None
    } else {
        bytes_decode(bytes_of_hex(s))
    }
}

proof fn lemma_input_words_len(metas: Seq<InputMeta>, raws: Seq<TxInput>)
    requires
        metas.len() == raws.len(),
    ensures
        input_words(metas, raws).len() == 3 * metas.len(),
    decreases metas.len(),
{
    if metas.len() > 0 {
        lemma_input_words_len(metas.drop_last(), raws.drop_last());
    }
}

proof fn lemma_output_words_len(metas: Seq<OutputMeta>, raws: Seq<TxOutput>)
    requires
        metas.len() == raws.len(),
    ensures
        output_words(metas, raws).len() == 2 * metas.len(),
    decreases metas.len(),
{
    if metas.len() > 0 {
        lemma_output_words_len(metas.drop_last(), raws.drop_last());
    }
}

proof fn lemma_input_words_index(metas: Seq<InputMeta>, raws: Seq<TxInput>, i: int)
    requires
        metas.len() == raws.len(),
        0 <= i < metas.len(),
    ensures
        input_words(metas, raws)[3 * i] == metas[i].owner.key,
        input_words(metas, raws)[3 * i + 1] == metas[i].sig,
        input_words(metas, raws)[3 * i + 2] == raws[i].txid,
    decreases metas.len(),
{
    lemma_input_words_len(metas, raws);
    lemma_input_words_len(metas.drop_last(), raws.drop_last());
    if i < metas.len() - 1 {
        lemma_input_words_index(metas.drop_last(), raws.drop_last(), i);
    }
}

proof fn lemma_output_words_index(metas: Seq<OutputMeta>, raws: Seq<TxOutput>, i: int)
    requires
        metas.len() == raws.len(),
        0 <= i < metas.len(),
    ensures
        output_words(metas, raws)[2 * i] == metas[i].tag,
        output_words(metas, raws)[2 * i + 1] == raws[i].value,
    decreases metas.len(),
{
    lemma_output_words_len(metas, raws);
    lemma_output_words_len(metas.drop_last(), raws.drop_last());
    if i < metas.len() - 1 {
        lemma_output_words_index(metas.drop_last(), raws.drop_last(), i);
    }
}

/// Decoding the word layout of a well-formed transaction gives it back.
pub proof fn lemma_words_decode_encode(t: TxView)
    requires
        t.wf(),
        t.input_metas.len() <= u64::MAX,
        t.output_metas.len() <= u64::MAX,
    ensures
        words_decode(tx_words(t)) == Some(t),
{
    let ws = tx_words(t);
    let ni = t.input_metas.len() as int;
    let no = t.output_metas.len() as int;
    lemma_input_words_len(t.input_metas, t.inputs);
    lemma_output_words_len(t.output_metas, t.outputs);
    assert(ws.len() == 2 + 3 * ni + 2 * no);
    assert(ws[0] == ni as u64);
    assert(ws[1] == no as u64);
    let d = words_decode(ws);
    assert forall|i: int| 0 <= i < ni implies {
        &&& ws[2 + 3 * i] == t.input_metas[i].owner.key
        &&& ws[2 + 3 * i + 1] == t.input_metas[i].sig
        &&& ws[2 + 3 * i + 2] == t.inputs[i].txid
    } by {
        lemma_input_words_index(t.input_metas, t.inputs, i);
        assert(ws[2 + 3 * i] == input_words(t.input_metas, t.inputs)[3 * i]);
        assert(ws[2 + 3 * i + 1] == input_words(t.input_metas, t.inputs)[3 * i + 1]);
        assert(ws[2 + 3 * i + 2] == input_words(t.input_metas, t.inputs)[3 * i + 2]);
    }
    assert forall|i: int| 0 <= i < no implies {
        &&& ws[2 + 3 * ni + 2 * i] == t.output_metas[i].tag
        &&& ws[2 + 3 * ni + 2 * i + 1] == t.outputs[i].value
    } by {
        lemma_output_words_index(t.output_metas, t.outputs, i);
        assert(ws[2 + 3 * ni + 2 * i] == output_words(t.output_metas, t.outputs)[2 * i]);
        assert(ws[2 + 3 * ni + 2 * i + 1] == output_words(t.output_metas, t.outputs)[2 * i + 1]);
    }
    let u = d->Some_0;
    assert(u.input_metas =~= t.input_metas);
    assert(u.inputs =~= t.inputs);
    assert(u.output_metas =~= t.output_metas);
    assert(u.outputs =~= t.outputs);
}

/// Everything that decodes is well formed: a transaction taken off the
/// wire always satisfies the alignment invariant, so every transaction
/// state reachable through the protocol keeps bookkeeping and raw
/// sequences index-aligned.
pub proof fn lemma_decoded_wf(s: Seq<char>)
    ensures
        tx_of_hex(s) matches Some(t) ==> t.wf(),
{
}

/// Round trip: decoding the transport hex of a well-formed transaction
/// gives back exactly that transaction.
pub proof fn lemma_codec_round_trip(t: TxView)
    requires
        t.wf(),
        t.input_metas.len() <= u64::MAX,
        t.output_metas.len() <= u64::MAX,
    ensures
        tx_of_hex(tx_hex(t)) == Some(t),
{
    let ws = tx_words(t);
    let b = tx_bytes(t);
    lemma_hex_round_trip(b);
    lemma_words_bytes_len(ws);
    lemma_bytes_words_round_trip(ws);
    lemma_words_decode_encode(t);
}

// ---------------------------------------------------------------------
// Executable encoding and decoding.
// ---------------------------------------------------------------------
fn words_of_transaction(t: &Transaction) -> (ws: Vec<u64>)
    requires
        t@.wf(),
    ensures
        ws@ == tx_words(t@),
{
    let ni = t.input_metas.len();
    let no = t.output_metas.len();
    let mut ws: Vec<u64> = Vec::new();
    ws.push(ni as u64);
    ws.push(no as u64);
    let ghost head = seq![ni as u64, no as u64];
    assert(ws@ =~= head);
    let mut i: usize = 0;
    while i < ni
        invariant
            t@.wf(),
            ni == t@.input_metas.len(),
            no == t@.output_metas.len(),
            i <= ni,
            ws@ == head + input_words(t@.input_metas.take(i as int), t@.inputs.take(i as int)),
        decreases ni - i,
    {
        ws.push(t.input_metas[i].owner.key);
        ws.push(t.input_metas[i].sig);
        ws.push(t.inputs[i].txid);
        i += 1;
        proof {
            let m = t@.input_metas.take(i as int);
            let r = t@.inputs.take(i as int);
            assert(m.drop_last() =~= t@.input_metas.take(i as int - 1));
            assert(r.drop_last() =~= t@.inputs.take(i as int - 1));
            assert(ws@ =~= head + input_words(m, r));
        }
    }
    proof {
        assert(t@.input_metas.take(ni as int) =~= t@.input_metas);
        assert(t@.inputs.take(ni as int) =~= t@.inputs);
    }
    let ghost mid = head + input_words(t@.input_metas, t@.inputs);
    let mut k: usize = 0;
    while k < no
        invariant
            t@.wf(),
            no == t@.output_metas.len(),
            k <= no,
            ws@ == mid + output_words(t@.output_metas.take(k as int), t@.outputs.take(k as int)),
        decreases no - k,
    {
        ws.push(t.output_metas[k].tag);
        ws.push(t.outputs[k].value);
        k += 1;
        proof {
            let m = t@.output_metas.take(k as int);
            let r = t@.outputs.take(k as int);
            assert(m.drop_last() =~= t@.output_metas.take(k as int - 1));
            assert(r.drop_last() =~= t@.outputs.take(k as int - 1));
            assert(ws@ =~= mid + output_words(m, r));
        }
    }
    proof {
        assert(t@.output_metas.take(no as int) =~= t@.output_metas);
        assert(t@.outputs.take(no as int) =~= t@.outputs);
        assert(ws@ =~= tx_words(t@));
    }
    ws
}

/// Encode a transaction into its transport bytes.
pub fn encode_transaction(t: &Transaction) -> (b: Vec<u8>)
    requires
        t@.wf(),
    ensures
        b@ == tx_bytes(t@),
{
    let ws = words_of_transaction(t);
    let mut b: Vec<u8> = Vec::new();
    let mut j: usize = 0;
    while j < ws.len()
        invariant
            j <= ws@.len(),
            b@ == words_bytes(ws@.take(j as int)),
        decreases ws@.len() - j,
    {
        let mut piece = u64_to_le_bytes(ws[j]);
        b.append(&mut piece);
        j += 1;
        proof {
            assert(ws@.take(j as int).drop_last() =~= ws@.take(j as int - 1));
        }
    }
    proof {
        assert(ws@.take(ws@.len() as int) =~= ws@);
    }
    b
}

/// Encode a transaction into its transport hex string.
pub fn encode_to_hex(t: &Transaction) -> (s: String)
    requires
        t@.wf(),
    ensures
        s@ == tx_hex(t@),
{
    let b = encode_transaction(t);
    hex_encode(&b)
}

fn words_of_bytes(b: &Vec<u8>) -> (r: Option<Vec<u64>>)
    ensures
        match r {
            Some(ws) => b@.len() % 8 == 0 && ws@ == bytes_words(b@),
            None => b@.len() % 8 != 0,
        },
{
    let len = b.len();
    if len % 8 != 0 {
        return None;
    }
    let n = len / 8;
    let mut ws: Vec<u64> = Vec::new();
    let mut j: usize = 0;
    while j < n
        invariant
            b@.len() % 8 == 0,
            len == b@.len(),
            n == b@.len() / 8,
            j <= n,
            ws@.len() == j,
            forall|k: int| 0 <= k < j ==> ws@[k] == bytes_words(b@)[k],
        decreases n - j,
    {
        let piece = slice_subrange(b.as_slice(), 8 * j, 8 * j + 8);
        let w = u64_from_le_bytes(piece);
        ws.push(w);
        j += 1;
    }
    proof {
        assert(ws@ =~= bytes_words(b@));
    }
    Some(ws)
}

fn transaction_of_words(ws: &Vec<u64>) -> (r: Option<Transaction>)
    ensures
        match r {
            Some(t) => t@.wf() && words_decode(ws@) == Some(t@),
            None => words_decode(ws@) is None,
        },
{
    let len = ws.len();
    if len < 2 {
        return None;
    }
    let ni64 = ws[0];
    let no64 = ws[1];
    let expect: u128 = 2 + 3 * (ni64 as u128) + 2 * (no64 as u128);
    if (len as u128) != expect {
        return None;
    }
    assert(ni64 <= len);
    assert(no64 <= len);
    let ni = ni64 as usize;
    let no = no64 as usize;
    let ghost dv = words_decode(ws@)->Some_0;
    let mut imetas: Vec<InputMeta> = Vec::new();
    let mut iraws: Vec<TxInput> = Vec::new();
    let mut i: usize = 0;
    while i < ni
        invariant
            len == ws@.len(),
            len == 2 + 3 * ni + 2 * no,
            i <= ni,
            imetas@.len() == i,
            iraws@.len() == i,
            forall|k: int|
                0 <= k < i ==> imetas@[k] == (InputMeta {
                    owner: NodeId { key: ws@[2 + 3 * k] },
                    sig: ws@[2 + 3 * k + 1],
                }),
            forall|k: int| 0 <= k < i ==> iraws@[k] == (TxInput { txid: ws@[2 + 3 * k + 2] }),
        decreases ni - i,
    {
        imetas.push(InputMeta { owner: NodeId { key: ws[2 + 3 * i] }, sig: ws[2 + 3 * i + 1] });
        iraws.push(TxInput { txid: ws[2 + 3 * i + 2] });
        i += 1;
    }
    let base = 2 + 3 * ni;
    let mut ometas: Vec<OutputMeta> = Vec::new();
    let mut oraws: Vec<TxOutput> = Vec::new();
    let mut k: usize = 0;
    while k < no
        invariant
            len == ws@.len(),
            len == 2 + 3 * ni + 2 * no,
            base == 2 + 3 * ni,
            k <= no,
            ometas@.len() == k,
            oraws@.len() == k,
            forall|j: int| 0 <= j < k ==> ometas@[j] == (OutputMeta { tag: ws@[2 + 3 * ni + 2 * j] }),
            forall|j: int|
                0 <= j < k ==> oraws@[j] == (TxOutput { value: ws@[2 + 3 * ni + 2 * j + 1] }),
        decreases no - k,
    {
        ometas.push(OutputMeta { tag: ws[base + 2 * k] });
        oraws.push(TxOutput { value: ws[base + 2 * k + 1] });
        k += 1;
    }
    let t = Transaction { input_metas: imetas, inputs: iraws, output_metas: ometas, outputs: oraws };
    proof {
        assert(t@.input_metas =~= dv.input_metas);
        assert(t@.inputs =~= dv.inputs);
        assert(t@.output_metas =~= dv.output_metas);
        assert(t@.outputs =~= dv.outputs);
        assert(t@ == dv);
    }
    Some(t)
}

/// Decode a transport hex string back into a transaction. Returns None
/// exactly on malformed input: a string that is not even-length hex, or
/// whose words do not lay out whole input and output pairs as counted.
pub fn decode_from_hex(s: &str) -> (r: Option<Transaction>)
    ensures
        match r {
            Some(t) => t@.wf() && tx_of_hex(s@) == Some(t@),
            None => tx_of_hex(s@) is None,
        },
{
    let bytes = match hex_decode(s) {
        Some(bytes) => bytes,
        None => {
            return None;
        },
    };
    let ws = match words_of_bytes(&bytes) {
        Some(ws) => ws,
        None => {
            return None;
        },
    };
    transaction_of_words(&ws)
}

} // verus!
