use aeser::api_encoder::{decode, encode_data, KnownType};
use aeser::data::types::{BytesSize, Type};
use aeser::data::value::Value;
use aeser::integer::Int;
use aeser::rlp::RlpItem;

/// A small generator of numbers that are the same on every run.
struct Numbers(u64);

impl Numbers {
    fn next(&mut self) -> u64 {
        self.0 ^= self.0 << 13;
        self.0 ^= self.0 >> 7;
        self.0 ^= self.0 << 17;
        self.0
    }

    fn below(&mut self, n: u64) -> u64 {
        self.next() % n
    }

    fn bytes(&mut self, max: u64) -> Vec<u8> {
        let n = self.below(max + 1);
        (0..n).map(|_| self.next() as u8).collect()
    }

    fn item(&mut self, depth: u32) -> RlpItem {
        if depth == 0 || self.below(3) == 0 {
            let max = if self.below(8) == 0 { 300 } else { 4 };
            RlpItem::ByteArray(self.bytes(max))
        } else {
            let n = self.below(6);
            RlpItem::List((0..n).map(|_| self.item(depth - 1)).collect())
        }
    }

    fn integer(&mut self) -> Int {
        let negative = self.below(2) == 0;
        match self.below(3) {
            0 => Int::from_i64(self.below(130) as i64 - 65),
            1 => Int::from_be_bytes(negative, &self.bytes(3)),
            _ => Int::from_be_bytes(negative, &self.bytes(40)),
        }
    }

    fn fate_type(&mut self, depth: u32) -> Type {
        let leaves = 13;
        let kinds = if depth == 0 { leaves } else { leaves + 4 };
        match self.below(kinds) {
            0 => Type::Any,
            1 => Type::Boolean,
            2 => Type::Integer,
            3 => Type::Bits,
            4 => Type::String,
            5 => Type::Address,
            6 => Type::Contract,
            7 => Type::Oracle,
            8 => Type::OracleQuery,
            9 => Type::Channel,
            10 => Type::ContractBytearray,
            11 => Type::TVar(self.next() as u8),
            12 => {
                if self.below(2) == 0 {
                    Type::Bytes(BytesSize::Unsized)
                } else {
                    Type::Bytes(BytesSize::Sized(self.below(100_000) as usize))
                }
            }
            13 => Type::List(Box::new(self.fate_type(depth - 1))),
            14 => {
                let n = self.below(4);
                Type::Tuple((0..n).map(|_| self.fate_type(depth - 1)).collect())
            }
            15 => {
                let n = self.below(4);
                Type::Variant((0..n).map(|_| self.fate_type(depth - 1)).collect())
            }
            _ => Type::Mapping {
                key: Box::new(self.fate_type(depth - 1)),
                val: Box::new(self.fate_type(depth - 1)),
            },
        }
    }

    fn leaf(&mut self, kind: u64) -> Value {
        match kind {
            0 => Value::Boolean(self.below(2) == 0),
            1 => Value::Integer(self.integer()),
            2 => Value::Bits(self.integer()),
            3 => {
                let max = if self.below(6) == 0 { 200 } else { 5 };
                Value::String(self.bytes(max))
            }
            4 => Value::Bytes(self.bytes(70)),
            5 => Value::Address(self.bytes(33)),
            6 => Value::Contract(self.bytes(33)),
            7 => Value::Oracle(self.bytes(33)),
            8 => Value::OracleQuery(self.bytes(33)),
            9 => Value::Channel(self.bytes(33)),
            10 => Value::ContractBytearray(self.bytes(100)),
            11 => Value::Typerep(self.fate_type(2)),
            _ => Value::StoreMap { cache: vec![], id: self.next() as u32 },
        }
    }

    fn value(&mut self, depth: u32) -> Value {
        let leaves = 13;
        let kinds = if depth == 0 { leaves } else { leaves + 4 };
        match self.below(kinds) {
            13 => {
                let n = self.below(20);
                Value::List((0..n).map(|_| self.value(depth - 1)).collect())
            }
            14 => {
                let n = self.below(20);
                Value::Tuple((0..n).map(|_| self.value(depth - 1)).collect())
            }
            15 => {
                let count = 1 + self.below(4) as usize;
                let mut arities: Vec<u8> = (0..count).map(|_| self.below(5) as u8).collect();
                let tag = self.below(count as u64) as u8;
                let n = self.below(4);
                arities[tag as usize] = n as u8;
                let values = (0..n).map(|_| self.value(depth - 1)).collect();
                Value::Variant { arities, tag, values }
            }
            16 => {
                // keys and values of one kind each, the keys comparable
                let key_kind = self.below(11);
                let val_kind = self.below(13);
                let n = self.below(6);
                let raw = (0..n).map(|_| (self.leaf(key_kind), self.leaf(val_kind))).collect();
                Value::map_of(raw).unwrap()
            }
            kind => self.leaf(kind),
        }
    }
}

#[test]
fn generated_rlp_items_round_trip() {
    let mut numbers = Numbers(0x9E3779B97F4A7C15);
    for _ in 0..500 {
        let item = numbers.item(4);
        let bytes = item.serialize();
        assert_eq!(RlpItem::deserialize(&bytes), Ok(item.clone()));
        let tail = numbers.bytes(3);
        let longer = [bytes.clone(), tail.clone()].concat();
        let (decoded, rest) = RlpItem::try_deserialize(&longer).unwrap();
        assert_eq!(decoded, item);
        assert_eq!(rest, &tail[..]);
    }
}

#[test]
fn generated_types_round_trip() {
    let mut numbers = Numbers(0xD1B54A32D192ED03);
    for _ in 0..500 {
        let t = numbers.fate_type(4);
        let bytes = t.serialize().unwrap();
        let tail = numbers.bytes(3);
        let longer = [bytes, tail.clone()].concat();
        let (decoded, rest) = Type::deserialize(&longer).unwrap();
        assert_eq!(decoded, t);
        assert_eq!(rest, &tail[..]);
    }
}

#[test]
fn generated_values_round_trip() {
    let mut numbers = Numbers(0x2545F4914F6CDD1D);
    for _ in 0..500 {
        let v = numbers.value(3);
        let bytes = v.serialize().unwrap();
        assert_eq!(Value::deserialize(&bytes), Ok(v.clone()), "{:?}", bytes);
        let again = Value::deserialize(&bytes).unwrap().serialize().unwrap();
        assert_eq!(again, bytes);
    }
}

#[test]
fn generated_bytes_never_break_the_decoders() {
    let mut numbers = Numbers(0x6A09E667F3BCC909);
    for _ in 0..3000 {
        let bytes = numbers.bytes(12);
        if let Ok(value) = Value::deserialize(&bytes) {
            if let Ok(again) = value.serialize() {
                assert_eq!(Value::deserialize(&again), Ok(value));
            }
        }
        if let Ok(item) = RlpItem::deserialize(&bytes) {
            assert_eq!(RlpItem::deserialize(&item.serialize()), Ok(item));
        }
        let _ = Type::deserialize(&bytes);
    }
}

#[test]
fn generated_api_strings_round_trip() {
    let mut numbers = Numbers(0xBB67AE8584CAA73B);
    let open = [
        KnownType::ContractBytearray,
        KnownType::Transaction,
        KnownType::Name,
        KnownType::Bytearray,
        KnownType::Poi,
    ];
    for _ in 0..200 {
        let tp = open[numbers.below(open.len() as u64) as usize];
        let payload = numbers.bytes(80);
        let text = encode_data(tp, &payload);
        assert_eq!(decode(&text), Ok((tp, payload)));
    }
}
