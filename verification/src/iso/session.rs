//! The envelope in which holder and verifier exchange encrypted messages.

use crate::utils::cbor::{
    cbor_decoding, data_item_views, entry_views, lemma_table_view, select_entries,
    selected_entries, Cbor, DataItem,
};
use crate::utils::crypto::{aes256_gcm_opened, aes256_gcm_sealed, CryptoError, SessionKey};
use vstd::prelude::*;

verus! {

/// The status with which a party ends a session.
pub const SESSION_TERMINATION: u64 = 20;

/// An encrypted message, a status, or both.
#[derive(Debug)]
pub struct SessionData {
    pub data: Option<Vec<u8>>,
    pub status: Option<u64>,
}

impl SessionData {
    /// The data item: a table of the ciphertext and the status, as far as
    /// they are there.
    pub open spec fn to_cbor(&self) -> Cbor {
        Cbor::Table(
            match self.data {
                Some(data) => seq![(Cbor::Text("data"@), Cbor::Bytes(data@))],
                None => Seq::empty(),
            } + match self.status {
                Some(status) => seq![(Cbor::Text("status"@), Cbor::Integer(status as i128))],
                None => Seq::empty(),
            },
        )
    }

    /// An envelope always has an encoding.
    pub proof fn lemma_encodable(&self)
        ensures
            self.to_cbor().encodable(),
    {
        reveal_with_fuel(Cbor::encodable, 2);
    }

    /// Builds [`Self::to_cbor`].
    pub fn to_data_item(&self) -> (item: DataItem)
        ensures
            item@ == self.to_cbor(),
    {
        let mut entries: Vec<(DataItem, DataItem)> = Vec::new();
        match &self.data {
            Some(data) => {
                entries.push((DataItem::text("data"), DataItem::bytes(data)));
            },
            None => {},
        }
        match self.status {
            Some(status) => {
                entries.push((DataItem::text("status"), DataItem::Integer(status as i128)));
            },
            None => {},
        }
        assert(entry_views(entries@) =~= self.to_cbor()->Table_0);
        DataItem::table(entries)
    }

    /// Reads a status from a data item.
    fn status_from_data_item(item: &DataItem) -> (status: Option<u64>)
        ensures
            match status {
                Some(status) => item@ == Cbor::Integer(status as i128),
                None => !(item@ is Integer && 0 <= item@->Integer_0 <= u64::MAX),
            },
    {
        match item {
            DataItem::Integer(number) => {
                if 0 <= *number && *number <= 0xffff_ffff_ffff_ffff {
                    Some(*number as u64)
                } else {
                    None
                }
            },
            _ => None,
        }
    }

    /// The keys under which the entries of an envelope stand.
    pub open spec fn keys() -> Seq<Cbor> {
        seq![Cbor::Text("data"@), Cbor::Text("status"@)]
    }

    /// Whether `item` reads as this envelope: it is a table, and what
    /// stands in it under the keys of an envelope, in whatever order and
    /// beside whatever else, are the entries of [`Self::to_cbor`].
    pub open spec fn read_from(&self, item: Cbor) -> bool {
        item matches Cbor::Table(entries) && selected_entries(entries, Self::keys()) == Some(
            self.to_cbor()->Table_0,
        )
    }

    /// Whether `bytes` decode to a data item that reads as this envelope.
    pub open spec fn read_from_bytes(&self, bytes: Seq<u8>) -> bool {
        cbor_decoding(bytes) matches Some(item) && self.read_from(item)
    }

    /// Reads an envelope from a data item: finds its entries by their
    /// keys, and passes over what stands under other keys. A table in
    /// which a key of an envelope stands twice is none.
    pub fn from_data_item(item: &DataItem) -> (envelope: Option<Self>)
        ensures
            match envelope {
                Some(envelope) => envelope.read_from(item@),
                None => forall|other: SessionData| !other.read_from(item@),
            },
    {
        let entries = match item {
            DataItem::Table(entries) => entries,
            _ => { return None; },
        };
        proof {
            lemma_table_view(*entries);
        }
        let mut keys: Vec<DataItem> = Vec::new();
        keys.push(DataItem::text("data"));
        keys.push(DataItem::text("status"));
        assert(data_item_views(keys@) =~= Self::keys());
        let selected = match select_entries(entries, &keys) {
            Some(selected) => selected,
            None => { return None; },
        };
        Self::from_ordered_item(&DataItem::table(selected))
    }

    /// Reads an envelope from a table of exactly the entries of
    /// [`Self::to_cbor`], in that order.
    fn from_ordered_item(item: &DataItem) -> (envelope: Option<Self>)
        ensures
            match envelope {
                Some(envelope) => envelope.to_cbor() == item@,
                None => forall|other: SessionData| other.to_cbor() != item@,
            },
    {
        let entries = match item {
            DataItem::Table(entries) => entries,
            _ => { return None; },
        };
        proof {
            lemma_table_view(*entries);
        }
        let ghost views = entry_views(entries@);
        if entries.len() > 2 {
            assert forall|other: SessionData| other.to_cbor() != item@ by {
                assert(other.to_cbor()->Table_0.len() <= 2);
            }
            return None;
        }
        proof {
            assert forall|k: int| 0 <= k < entries.len() implies views[k] == (
                entries[k].0@,
                entries[k].1@,
            ) by {}
            assert forall|other: SessionData| other.to_cbor() == item@ implies other.to_cbor()->Table_0
                == views by {}
        }
        if entries.len() == 0 {
            let envelope = SessionData { data: None, status: None };
            assert(envelope.to_cbor()->Table_0 =~= views);
            return Some(envelope);
        }
        let has_data = entries[0].0.is_text("data");
        let data = if has_data {
            match &entries[0].1 {
                DataItem::Bytes(data) => Some(data.clone()),
                _ => {
                    assert forall|other: SessionData| other.to_cbor() != item@ by {
                        reveal_strlit("data");
                        reveal_strlit("status");
                        if other.to_cbor() == item@ {
                            assert(other.to_cbor()->Table_0[0] == views[0]);
                            assert("data"@.len() != "status"@.len());
                        }
                    }
                    return None;
                },
            }
        } else {
            None
        };
        let rest: usize = if has_data {
            1
        } else {
            0
        };
        let status = if rest < entries.len() {
            if rest + 1 != entries.len() || !entries[rest].0.is_text("status") {
                assert forall|other: SessionData| other.to_cbor() != item@ by {
                    if other.to_cbor() == item@ {
                        assert(other.to_cbor()->Table_0[0] == views[0]);
                        assert(other.to_cbor()->Table_0[rest as int] == views[rest as int]);
                    }
                }
                return None;
            }
            match Self::status_from_data_item(&entries[rest].1) {
                Some(status) => Some(status),
                None => {
                    assert forall|other: SessionData| other.to_cbor() != item@ by {
                        if other.to_cbor() == item@ {
                            assert(other.to_cbor()->Table_0[0] == views[0]);
                            assert(other.to_cbor()->Table_0[rest as int] == views[rest as int]);
                        }
                    }
                    return None;
                },
            }
        } else {
            None
        };
        let envelope = SessionData { data, status };
        assert(envelope.to_cbor()->Table_0 =~= views);
        Some(envelope)
    }

    /// The envelope that carries `plaintext`, encrypted with `key`.
    pub fn encrypt(plaintext: &Vec<u8>, key: &SessionKey) -> (envelope: Result<Self, CryptoError>)
        ensures
            match envelope {
                Ok(envelope) => {
                    &&& envelope.status is None
                    &&& envelope.data is Some
                    &&& aes256_gcm_sealed(key.bytes(), key.user().nonce(), plaintext@) == Some(
                        envelope.data->0@,
                    )
                },
                Err(error) => error == CryptoError::Encryption && aes256_gcm_sealed(
                    key.bytes(),
                    key.user().nonce(),
                    plaintext@,
                ) is None,
            },
    {
        match key.encrypt(plaintext) {
            Ok(data) => Ok(SessionData { data: Some(data), status: None }),
            Err(error) => Err(error),
        }
    }

    /// What the envelope carries, decrypted with `key`.
    pub fn decrypt(&self, key: &SessionKey) -> (plaintext: Result<Vec<u8>, CryptoError>)
        ensures
            match plaintext {
                Ok(plaintext) => self.data matches Some(data) && aes256_gcm_opened(
                    key.bytes(),
                    key.user().nonce(),
                    data@,
                ) == Some(plaintext@),
                Err(CryptoError::MissingCiphertext) => self.data is None,
                Err(CryptoError::Decryption) => self.data matches Some(data) && aes256_gcm_opened(
                    key.bytes(),
                    key.user().nonce(),
                    data@,
                ) is None,
                Err(_) => false,
            },
    {
        match &self.data {
            Some(data) => key.decrypt(data),
            None => Err(CryptoError::MissingCiphertext),
        }
    }

    /// The envelope that ends a session.
    pub fn new_termination() -> (envelope: Self)
        ensures
            envelope.data is None,
            envelope.status == Some(SESSION_TERMINATION),
    {
        SessionData { data: None, status: Some(SESSION_TERMINATION) }
    }
}

} // verus!
