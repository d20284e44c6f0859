//! The Merkle root of a block's transactions, over their ids in hex.

use vstd::prelude::*;
use vstd::utf8::encode_utf8;
use crate::digest::{hash_hex, hash_str};
use crate::tx::{Transaction, TransactionView, txid_of};
use crate::validation::txs_view;

verus! {

/// A layer with an odd number of nodes gets its last node repeated.
pub open spec fn merkle_pad(layer: Seq<Seq<char>>) -> Seq<Seq<char>> {
    if layer.len() % 2 == 1 {
        layer.push(layer.last())
    } else {
        layer
    }
}

/// The next layer: the hash (hex) of each adjacent pair's concatenated text.
pub open spec fn merkle_parents(layer: Seq<Seq<char>>) -> Seq<Seq<char>> {
    Seq::new(
        layer.len() / 2,
        |i: int| hash_hex(encode_utf8(layer[2 * i] + layer[2 * i + 1])),
    )
}

/// Reduces a non-empty layer to a single node.
pub open spec fn merkle_reduce(layer: Seq<Seq<char>>) -> Seq<char>
    decreases layer.len(),
{
    if layer.len() <= 1 {
        layer[0]
    } else {
        merkle_reduce(merkle_parents(merkle_pad(layer)))
    }
}

/// The Merkle root of a list of transactions: the hash of the empty text
/// when there are none, otherwise the reduction of their ids.
pub open spec fn merkle_root(txs: Seq<TransactionView>) -> Seq<char> {
    if txs.len() == 0 {
        hash_hex(Seq::empty())
    } else {
        merkle_reduce(txs.map_values(|t: TransactionView| txid_of(t)))
    }
}

/// The texts of a list of strings.
pub open spec fn strings_view(v: Seq<String>) -> Seq<Seq<char>> {
    v.map_values(|s: String| s@)
}

/// The Merkle root (hex) of the transactions.
pub fn merkle_root_hex(txs: &[Transaction]) -> (res: String)
    ensures
        res@ == merkle_root(txs_view(txs@)),
{
    let ghost t = txs_view(txs@);
    if txs.len() == 0 {
        proof {
            reveal_strlit("");
            assert(encode_utf8(""@) =~= Seq::<u8>::empty());
        }
        return hash_str("");
    }
    let mut layer: Vec<String> = Vec::new();
    for k in 0..txs.len()
        invariant
            t == txs_view(txs@),
            t.len() == txs.len(),
            layer.len() == k,
            strings_view(layer@) == t.take(k as int).map_values(|x: TransactionView| txid_of(x)),
    {
        assert(t[k as int] == txs[k as int]@);
        let ghost before = layer@;
        layer.push(txs[k].txid());
        assert forall|j: int| 0 <= j < k implies layer@[j]@ == txid_of(t[j]) by {
            assert(layer@[j] == before[j]);
            assert(strings_view(before)[j] == t.take(k as int).map_values(
                |x: TransactionView| txid_of(x),
            )[j]);
        }
        assert(strings_view(layer@) =~= t.take(k + 1).map_values(
            |x: TransactionView| txid_of(x),
        ));
    }
    assert(t.take(txs.len() as int) =~= t);
    let ghost root = merkle_reduce(strings_view(layer@));
    while layer.len() > 1
        invariant
            layer.len() >= 1,
            merkle_reduce(strings_view(layer@)) == root,
        decreases layer.len(),
    {
        let ghost before = strings_view(layer@);
        if layer.len() % 2 == 1 {
            let last = layer[layer.len() - 1].clone();
            layer.push(last);
        }
        let ghost padded = strings_view(layer@);
        assert(padded =~= merkle_pad(before));
        let mut next: Vec<String> = Vec::new();
        let mut i: usize = 0;
        while i < layer.len()
            invariant
                layer.len() % 2 == 0,
                i % 2 == 0,
                i <= layer.len(),
                strings_view(layer@) == padded,
                next.len() == i / 2,
                strings_view(next@) == merkle_parents(padded).take(i as int / 2),
            decreases layer.len() - i,
        {
            assert(padded[i as int] == layer@[i as int]@);
            assert(padded[i + 1] == layer@[i + 1]@);
            let mut combined = layer[i].clone();
            combined.append(layer[i + 1].as_str());
            let h = hash_str(combined.as_str());
            let ghost before = next@;
            next.push(h);
            assert(next@[i as int / 2]@ == merkle_parents(padded)[i as int / 2]);
            assert forall|j: int| 0 <= j < i as int / 2 implies next@[j]@ == merkle_parents(
                padded,
            )[j] by {
                assert(next@[j] == before[j]);
                assert(strings_view(before)[j] == merkle_parents(padded).take(i as int / 2)[j]);
            }
            assert(strings_view(next@) =~= merkle_parents(padded).take((i + 2) as int / 2));
            i += 2;
        }
        assert(merkle_parents(padded).take(i as int / 2) =~= merkle_parents(padded));
        layer = next;
    }
    layer[0].clone()
}

} // verus!
