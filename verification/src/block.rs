//! Transactions, block headers and blocks, with their canonical texts.

use crate::digest::Canonical;
use crate::text::{decimal_text, json_quote, json_string, push_decimal, push_decimal_digits};
use vstd::prelude::*;
use vstd::string::StringExecFns;

verus! {

/// A transfer of `amount` units from `sender` to `receiver`.
#[derive(Debug, Clone, PartialEq, Eq)]
pub struct Transaction {
    pub sender: String,
    pub receiver: String,
    pub amount: u64,
}

/// The mathematical model of a [`Transaction`].
pub struct TransactionView {
    pub sender: Seq<char>,
    pub receiver: Seq<char>,
    pub amount: nat,
}

impl View for Transaction {
    type V = TransactionView;

    open spec fn view(&self) -> TransactionView {
        TransactionView {
            sender: self.sender@,
            receiver: self.receiver@,
            amount: self.amount as nat,
        }
    }
}

/// The models of a sequence of transactions, in order.
pub open spec fn transaction_views(txs: Seq<Transaction>) -> Seq<TransactionView> {
    txs.map_values(|t: Transaction| t@)
}

/// The canonical text of a transaction: a JSON object of its three fields.
pub open spec fn transaction_json(t: TransactionView) -> Seq<char> {
    "{\"sender\":"@ + json_string(t.sender) + ",\"receiver\":"@ + json_string(t.receiver)
        + ",\"amount\":"@ + decimal_text(t.amount as int) + "}"@
}

impl Canonical for Transaction {
    open spec fn canonical(&self) -> Seq<char> {
        transaction_json(self@)
    }

    fn to_canonical(&self) -> (text: String) {
        let mut text = String::from_str("{\"sender\":");
        let sender = json_quote(self.sender.as_str());
        text.append(sender.as_str());
        text.append(",\"receiver\":");
        let receiver = json_quote(self.receiver.as_str());
        text.append(receiver.as_str());
        text.append(",\"amount\":");
        push_decimal_digits(&mut text, self.amount);
        text.append("}");
        text
    }
}

/// The header of a block: what the proof of work is computed over.
#[derive(Debug, Clone, PartialEq, Eq)]
pub struct Blockheader {
    /// Milliseconds since the Unix epoch at which the block was assembled.
    pub timestamp: i64,
    /// The counter that the proof-of-work search varies.
    pub nonce: u32,
    /// The hash of the previous block's header.
    pub pre_hash: String,
    /// The Merkle root of the block's transactions.
    pub merkle: String,
    /// The number of leading zero digits that the header's hash must show.
    pub difficulty: u32,
}

/// The mathematical model of a [`Blockheader`].
pub struct BlockheaderView {
    pub timestamp: int,
    pub nonce: nat,
    pub pre_hash: Seq<char>,
    pub merkle: Seq<char>,
    pub difficulty: nat,
}

impl View for Blockheader {
    type V = BlockheaderView;

    open spec fn view(&self) -> BlockheaderView {
        BlockheaderView {
            timestamp: self.timestamp as int,
            nonce: self.nonce as nat,
            pre_hash: self.pre_hash@,
            merkle: self.merkle@,
            difficulty: self.difficulty as nat,
        }
    }
}

/// The canonical text of a header: a JSON object of its five fields.
pub open spec fn header_json(h: BlockheaderView) -> Seq<char> {
    "{\"timestamp\":"@ + decimal_text(h.timestamp) + ",\"nonce\":"@ + decimal_text(h.nonce as int)
        + ",\"pre_hash\":"@ + json_string(h.pre_hash) + ",\"merkle\":"@ + json_string(h.merkle)
        + ",\"difficulty\":"@ + decimal_text(h.difficulty as int) + "}"@
}

impl Canonical for Blockheader {
    open spec fn canonical(&self) -> Seq<char> {
        header_json(self@)
    }

    fn to_canonical(&self) -> (text: String) {
        let mut text = String::from_str("{\"timestamp\":");
        push_decimal(&mut text, self.timestamp);
        text.append(",\"nonce\":");
        push_decimal_digits(&mut text, self.nonce as u64);
        text.append(",\"pre_hash\":");
        let pre_hash = json_quote(self.pre_hash.as_str());
        text.append(pre_hash.as_str());
        text.append(",\"merkle\":");
        let merkle = json_quote(self.merkle.as_str());
        text.append(merkle.as_str());
        text.append(",\"difficulty\":");
        push_decimal_digits(&mut text, self.difficulty as u64);
        text.append("}");
        text
    }
}

/// A block: a header and the transactions that it commits to.
#[derive(Debug, Clone, PartialEq, Eq)]
pub struct Block {
    pub header: Blockheader,
    /// The number of transactions in the block.
    pub count: u32,
    pub transactions: Vec<Transaction>,
}

/// The mathematical model of a [`Block`].
pub struct BlockView {
    pub header: BlockheaderView,
    pub count: nat,
    pub transactions: Seq<TransactionView>,
}

impl View for Block {
    type V = BlockView;

    open spec fn view(&self) -> BlockView {
        BlockView {
            header: self.header@,
            count: self.count as nat,
            transactions: transaction_views(self.transactions@),
        }
    }
}

} // verus!
