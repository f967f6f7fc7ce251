use eth_codec::{BlockHeader, LogEntry, Receipt, U256};
use ethereum_types::{Bloom, H160, H256, H64};
use rlp::Rlp;

/// A small deterministic generator, so that every run sees the same inputs.
struct Noise(u64);

impl Noise {
    fn next(&mut self) -> u64 {
        self.0 = self.0.wrapping_mul(6364136223846793005).wrapping_add(1442695040888963407);
        self.0 >> 17
    }

    fn below(&mut self, bound: usize) -> usize {
        (self.next() % bound as u64) as usize
    }

    fn byte(&mut self) -> u8 {
        (self.next() & 0xff) as u8
    }

    fn bytes(&mut self, len: usize) -> Vec<u8> {
        (0..len).map(|_| self.byte()).collect()
    }

    fn array<const N: usize>(&mut self) -> [u8; N] {
        let mut out = [0u8; N];
        for slot in out.iter_mut() {
            *slot = self.byte();
        }
        out
    }

    /// An integer with a random number of leading zero bytes.
    fn uint(&mut self) -> U256 {
        let mut bytes = self.array::<32>();
        let zeros = self.below(34).min(32);
        for slot in bytes.iter_mut().take(zeros) {
            *slot = 0;
        }
        U256(bytes)
    }

    fn word(&mut self) -> u64 {
        let shift = self.below(65);
        if shift == 64 {
            0
        } else {
            self.next().wrapping_mul(0x9e3779b97f4a7c15) >> shift
        }
    }

    fn header(&mut self) -> BlockHeader {
        let extra = [0usize, 1, 5, 32, 55, 56, 60, 300][self.below(8)];
        BlockHeader {
            parent_hash: self.array(),
            uncles_hash: self.array(),
            author: self.array(),
            state_root: self.array(),
            transactions_root: self.array(),
            receipts_root: self.array(),
            log_bloom: self.array(),
            difficulty: self.uint(),
            number: self.word(),
            gas_limit: self.uint(),
            gas_used: self.uint(),
            timestamp: self.word(),
            extra_data: self.bytes(extra),
            mix_hash: self.array(),
            nonce: self.array(),
            hash: None,
            partial_hash: None,
        }
    }

    fn log(&mut self) -> LogEntry {
        let topics = self.below(5);
        let data = [0usize, 1, 2, 31, 55, 56, 200][self.below(7)];
        LogEntry {
            address: self.array(),
            topics: (0..topics).map(|_| self.array()).collect(),
            data: self.bytes(data),
        }
    }

    fn receipt(&mut self) -> Receipt {
        let logs = self.below(4);
        Receipt {
            status: self.below(2) == 1,
            gas_used: self.uint(),
            log_bloom: self.array(),
            logs: (0..logs).map(|_| self.log()).collect(),
        }
    }

    /// A copy of `bytes` with a few bytes changed, dropped or added.
    fn damage(&mut self, bytes: &[u8]) -> Vec<u8> {
        let mut out = bytes.to_vec();
        match self.below(8) {
            0 => {
                out.pop();
            }
            1 => out.push(self.byte()),
            2 => {
                // aim at the front, where the list prefix and the first tags are
                let at = self.below(out.len().min(8));
                out[at] = self.byte();
            }
            3 => {
                let at = self.below(out.len());
                out[at] ^= 1 << self.below(8);
            }
            4 => {
                let at = self.below(out.len());
                out.insert(at, self.byte());
            }
            5 => {
                let at = self.below(out.len());
                out.remove(at);
            }
            _ => {
                for _ in 0..1 + self.below(3) {
                    let at = self.below(out.len());
                    out[at] = self.byte();
                }
            }
        }
        out
    }
}

/// Whether `rlp` and everything in it is framed canonically and fills its
/// bytes exactly, as far as the `rlp` crate can tell.
fn exact(rlp: &Rlp) -> bool {
    let raw = rlp.as_raw();
    let info = match rlp.payload_info() {
        Ok(info) => info,
        Err(_) => return false,
    };
    if info.total() != raw.len() {
        return false;
    }
    if rlp.is_list() {
        let mut used = 0;
        for item in rlp.iter() {
            if !exact(&item) {
                return false;
            }
            used += item.as_raw().len();
        }
        used == info.value_len
    } else {
        !(raw.len() == 2 && raw[0] == 0x81 && raw[1] < 0x80)
    }
}

fn uint(value: ethereum_types::U256) -> U256 {
    U256(value.to_big_endian())
}

/// The header that the `rlp` crate reads from `bytes`, where they are
/// exactly one list of fifteen members.
fn reference_header(bytes: &[u8]) -> Option<BlockHeader> {
    let rlp = Rlp::new(bytes);
    if !exact(&rlp) || rlp.item_count() != Ok(15) {
        return None;
    }
    Some(BlockHeader {
        parent_hash: rlp.val_at::<H256>(0).ok()?.0,
        uncles_hash: rlp.val_at::<H256>(1).ok()?.0,
        author: rlp.val_at::<H160>(2).ok()?.0,
        state_root: rlp.val_at::<H256>(3).ok()?.0,
        transactions_root: rlp.val_at::<H256>(4).ok()?.0,
        receipts_root: rlp.val_at::<H256>(5).ok()?.0,
        log_bloom: rlp.val_at::<Bloom>(6).ok()?.0,
        difficulty: uint(rlp.val_at(7).ok()?),
        number: rlp.val_at(8).ok()?,
        gas_limit: uint(rlp.val_at(9).ok()?),
        gas_used: uint(rlp.val_at(10).ok()?),
        timestamp: rlp.val_at(11).ok()?,
        extra_data: rlp.val_at(12).ok()?,
        mix_hash: rlp.val_at::<H256>(13).ok()?.0,
        nonce: rlp.val_at::<H64>(14).ok()?.0,
        hash: None,
        partial_hash: None,
    })
}

fn reference_log(rlp: &Rlp) -> Option<LogEntry> {
    if !exact(rlp) || rlp.item_count() != Ok(3) {
        return None;
    }
    let topics: Vec<H256> = rlp.list_at(1).ok()?;
    if rlp.at(1).ok()?.item_count() != Ok(topics.len()) {
        return None;
    }
    Some(LogEntry {
        address: rlp.val_at::<H160>(0).ok()?.0,
        topics: topics.into_iter().map(|t| t.0).collect(),
        data: rlp.val_at(2).ok()?,
    })
}

fn reference_receipt(bytes: &[u8]) -> Option<Receipt> {
    let rlp = Rlp::new(bytes);
    if !exact(&rlp) || rlp.item_count() != Ok(4) {
        return None;
    }
    let list = rlp.at(3).ok()?;
    let mut logs = Vec::new();
    for index in 0..list.item_count().ok()? {
        logs.push(reference_log(&list.at(index).ok()?)?);
    }
    Some(Receipt {
        status: rlp.val_at(0).ok()?,
        gas_used: uint(rlp.val_at(1).ok()?),
        log_bloom: rlp.val_at::<Bloom>(2).ok()?.0,
        logs,
    })
}

fn without_hashes(mut header: BlockHeader) -> BlockHeader {
    header.hash = None;
    header.partial_hash = None;
    header
}

#[test]
fn differential_headers_round_trip_through_both_codecs() {
    let mut noise = Noise(1);
    for _ in 0..300 {
        let header = noise.header();
        let sealed = header.encode_sealed();
        assert_eq!(reference_header(&sealed), Some(header.clone()));
        let decoded = BlockHeader::decode(&sealed).expect("decodes");
        assert_eq!(decoded.hash, Some(eth_codec::keccak256(&sealed)));
        assert_eq!(decoded.partial_hash, Some(eth_codec::keccak256(&header.encode_partial())));
        assert_eq!(without_hashes(decoded), header);
    }
}

#[test]
fn differential_damaged_headers_are_judged_alike() {
    let mut noise = Noise(2);
    let mut accepted = 0;
    for _ in 0..4000 {
        let header = noise.header();
        let bytes = noise.damage(&header.encode_sealed());
        let ours = BlockHeader::decode(&bytes).ok().map(without_hashes);
        let theirs = reference_header(&bytes);
        assert_eq!(ours, theirs, "input {:02x?}", bytes);
        if let Some(read) = ours {
            accepted += 1;
            assert_eq!(read.encode_sealed(), bytes);
        }
    }
    assert!(accepted > 0);
}

#[test]
fn differential_logs_round_trip_through_both_codecs() {
    let mut noise = Noise(3);
    for _ in 0..300 {
        let log = noise.log();
        let bytes = log.encode();
        assert_eq!(reference_log(&Rlp::new(&bytes)), Some(log.clone()));
        assert_eq!(LogEntry::decode(&bytes), Ok(log));
    }
}

#[test]
fn differential_damaged_logs_are_judged_alike() {
    let mut noise = Noise(4);
    let mut accepted = 0;
    for _ in 0..4000 {
        let log = noise.log();
        let bytes = noise.damage(&log.encode());
        let ours = LogEntry::decode(&bytes).ok();
        let theirs = reference_log(&Rlp::new(&bytes));
        assert_eq!(ours, theirs, "input {:02x?}", bytes);
        if let Some(read) = ours {
            accepted += 1;
            assert_eq!(read.encode(), bytes);
        }
    }
    assert!(accepted > 0);
}

#[test]
fn differential_receipts_round_trip_through_both_codecs() {
    let mut noise = Noise(5);
    for _ in 0..300 {
        let receipt = noise.receipt();
        let bytes = receipt.encode();
        assert_eq!(reference_receipt(&bytes), Some(receipt.clone()));
        assert_eq!(Receipt::decode(&bytes), Ok(receipt));
    }
}

#[test]
fn differential_damaged_receipts_are_judged_alike() {
    let mut noise = Noise(6);
    let mut accepted = 0;
    for _ in 0..4000 {
        let receipt = noise.receipt();
        let bytes = noise.damage(&receipt.encode());
        let ours = Receipt::decode(&bytes).ok();
        let theirs = reference_receipt(&bytes);
        assert_eq!(ours, theirs, "input {:02x?}", bytes);
        if let Some(read) = ours {
            accepted += 1;
            assert_eq!(read.encode(), bytes);
        }
    }
    assert!(accepted > 0);
}
