//! Decoding of the XDR binary encoding, driven by a schema that describes
//! the shape of the value expected on the wire.
use vstd::prelude::*;
use byteorder::{BigEndian, ByteOrder};

verus! {

broadcast use vstd::std_specs::vec::group_vec_axioms;

/// The shape of a value expected on the wire.
pub enum Schema {
    U8,
    I8,
    U16,
    I16,
    U32,
    I32,
    U64,
    I64,
    /// A 32-bit float, kept as its raw bits.
    F32,
    /// A 64-bit float, kept as its raw bits.
    F64,
    /// A variable-length sequence: a 32-bit element count, then the elements.
    Sequence(Box<Schema>),
    /// A struct: its fields in declaration order, with no names and no count on the wire.
    Struct(Vec<Schema>),
    /// An enum or union: a 32-bit ordinal, then the payload of the selected
    /// variant (`None` for a unit variant).
    Variants(Vec<Option<Schema>>),
    /// Shapes that XDR decoding refuses.
    Bool,
    Text,
    Bytes,
    Optional(Box<Schema>),
    Dict(Box<Schema>, Box<Schema>),
    Tuple(Vec<Schema>),
}

/// A decoded value.
#[derive(Debug, PartialEq, Eq)]
pub enum Value {
    U8(u8),
    I8(i8),
    U16(u16),
    I16(i16),
    U32(u32),
    I32(i32),
    U64(u64),
    I64(i64),
    F32Bits(u32),
    F64Bits(u64),
    Sequence(Vec<Value>),
    Struct(Vec<Value>),
    /// The ordinal of the selected variant and its payload.
    Variant(u32, Option<Box<Value>>),
}

/// The mathematical model of a decoded value.
pub ghost enum Val {
    U8(u8),
    I8(i8),
    U16(u16),
    I16(i16),
    U32(u32),
    I32(i32),
    U64(u64),
    I64(i64),
    F32Bits(u32),
    F64Bits(u64),
    Sequence(Seq<Val>),
    Struct(Seq<Val>),
    Variant(u32, Option<Box<Val>>),
}

#[derive(Debug, PartialEq, Eq, Structural, Clone, Copy)]
pub enum DecodeError {
    /// The schema asks for a shape that XDR decoding does not support.
    Unsupported,
    /// The input ended before the value did.
    ShortRead,
    /// The discriminant names no declared variant.
    UnknownVariant(u32),
}

pub open spec fn view_values(vs: Seq<Value>, n: nat) -> Seq<Val>
    decreases vs, n,
{
    if n == 0 || n > vs.len() {
        Seq::empty()
    } else {
        view_values(vs, (n - 1) as nat).push(value_view(vs[n - 1]))
    }
}

pub open spec fn value_view(v: Value) -> Val
    decreases v, 0nat,
{
    match v {
        Value::U8(x) => Val::U8(x),
        Value::I8(x) => Val::I8(x),
        Value::U16(x) => Val::U16(x),
        Value::I16(x) => Val::I16(x),
        Value::U32(x) => Val::U32(x),
        Value::I32(x) => Val::I32(x),
        Value::U64(x) => Val::U64(x),
        Value::I64(x) => Val::I64(x),
        Value::F32Bits(x) => Val::F32Bits(x),
        Value::F64Bits(x) => Val::F64Bits(x),
        Value::Sequence(vs) => Val::Sequence(view_values(vs@, vs.len() as nat)),
        Value::Struct(vs) => Val::Struct(view_values(vs@, vs.len() as nat)),
        Value::Variant(k, None) => Val::Variant(k, None),
        Value::Variant(k, Some(p)) => Val::Variant(k, Some(Box::new(value_view(*p)))),
    }
}

impl View for Value {
    type V = Val;

    open spec fn view(&self) -> Val {
        value_view(*self)
    }
}


/// The unsigned integer that a big-endian byte string denotes.
pub open spec fn be_value(s: Seq<u8>) -> nat
    decreases s.len(),
{
    if s.len() == 0 {
        0
    } else {
        (be_value(s.drop_last()) * 256 + s.last()) as nat
    }
}

/// The unsigned integer stored big-endian in the `n` bytes of `b` at `p`.
pub open spec fn be_at(b: Seq<u8>, p: int, n: int) -> nat {
    be_value(b.subrange(p, p + n))
}

/// Whether `n` bytes are left in `b` from `p`.
pub open spec fn fits(b: Seq<u8>, p: int, n: int) -> bool {
    0 <= p && p + n <= b.len()
}

/// The result of decoding a value of shape `s` from `b` at `p`: the value
/// and the position after it. Every scalar takes exactly its own width:
/// shapes narrower than four bytes are read without the 4-byte padding of
/// standard XDR. That gap in the protocol is kept as it stands, not fixed.
pub open spec fn decode_at(s: Schema, b: Seq<u8>, p: int) -> Result<(Val, int), DecodeError>
    decreases s, 0nat,
{
    match s {
        Schema::U8 => if fits(b, p, 1) { Ok((Val::U8(b[p]), p + 1)) } else { Err(DecodeError::ShortRead) },
        Schema::I8 => if fits(b, p, 1) { Ok((Val::I8(#[verifier::truncate] (b[p] as i8)), p + 1)) } else { Err(DecodeError::ShortRead) },
        Schema::U16 => if fits(b, p, 2) { Ok((Val::U16(be_at(b, p, 2) as u16), p + 2)) } else { Err(DecodeError::ShortRead) },
        Schema::I16 => if fits(b, p, 2) { Ok((Val::I16(#[verifier::truncate] ((be_at(b, p, 2) as u16) as i16)), p + 2)) } else { Err(DecodeError::ShortRead) },
        Schema::U32 => if fits(b, p, 4) { Ok((Val::U32(be_at(b, p, 4) as u32), p + 4)) } else { Err(DecodeError::ShortRead) },
        Schema::I32 => if fits(b, p, 4) { Ok((Val::I32(#[verifier::truncate] ((be_at(b, p, 4) as u32) as i32)), p + 4)) } else { Err(DecodeError::ShortRead) },
        Schema::U64 => if fits(b, p, 8) { Ok((Val::U64(be_at(b, p, 8) as u64), p + 8)) } else { Err(DecodeError::ShortRead) },
        Schema::I64 => if fits(b, p, 8) { Ok((Val::I64(#[verifier::truncate] ((be_at(b, p, 8) as u64) as i64)), p + 8)) } else { Err(DecodeError::ShortRead) },
        Schema::F32 => if fits(b, p, 4) { Ok((Val::F32Bits(be_at(b, p, 4) as u32), p + 4)) } else { Err(DecodeError::ShortRead) },
        Schema::F64 => if fits(b, p, 8) { Ok((Val::F64Bits(be_at(b, p, 8) as u64), p + 8)) } else { Err(DecodeError::ShortRead) },
        Schema::Sequence(e) => {
            if fits(b, p, 4) {
                match decode_many(*e, be_at(b, p, 4), b, p + 4) {
                    Ok((vs, q)) => Ok((Val::Sequence(vs), q)),
                    Err(err) => Err(err),
                }
            } else {
                Err(DecodeError::ShortRead)
            }
        },
        Schema::Struct(fs) => match decode_fields(fs@, fs.len() as nat, b, p) {
            Ok((vs, q)) => Ok((Val::Struct(vs), q)),
            Err(err) => Err(err),
        },
        Schema::Variants(vs) => {
            if fits(b, p, 4) {
                let k = be_at(b, p, 4);
                if k < vs.len() {
                    match vs[k as int] {
                        None => Ok((Val::Variant(k as u32, None), p + 4)),
                        Some(ps) => match decode_at(ps, b, p + 4) {
                            Ok((v, q)) => Ok((Val::Variant(k as u32, Some(Box::new(v))), q)),
                            Err(err) => Err(err),
                        },
                    }
                } else {
                    Err(DecodeError::UnknownVariant(k as u32))
                }
            } else {
                Err(DecodeError::ShortRead)
            }
        },
        _ => Err(DecodeError::Unsupported),
    }
}

/// Decoding the first `n` of the positional fields `fs`, one after another.
pub open spec fn decode_fields(fs: Seq<Schema>, n: nat, b: Seq<u8>, p: int) -> Result<(Seq<Val>, int), DecodeError>
    decreases fs, n,
{
    if n == 0 || n > fs.len() {
        Ok((Seq::empty(), p))
    } else {
        match decode_fields(fs, (n - 1) as nat, b, p) {
            Ok((vs, q)) => match decode_at(fs[n - 1], b, q) {
                Ok((v, r)) => Ok((vs.push(v), r)),
                Err(err) => Err(err),
            },
            Err(err) => Err(err),
        }
    }
}

/// Decoding `n` elements of shape `e`, one after another.
pub open spec fn decode_many(e: Schema, n: nat, b: Seq<u8>, p: int) -> Result<(Seq<Val>, int), DecodeError>
    decreases e, n + 1,
{
    if n == 0 {
        Ok((Seq::empty(), p))
    } else {
        match decode_many(e, (n - 1) as nat, b, p) {
            Ok((vs, q)) => match decode_at(e, b, q) {
                Ok((v, r)) => Ok((vs.push(v), r)),
                Err(err) => Err(err),
            },
            Err(err) => Err(err),
        }
    }
}

/// Relies on byteorder's `BigEndian::read_u16`: the first two bytes of the
/// buffer, most significant first. It panics on a shorter buffer.
#[verifier::external_body]
fn read_be_u16(buf: &[u8], at: usize) -> (r: u16)
    requires
        at + 2 <= buf@.len(),
    ensures
        r == be_at(buf@, at as int, 2) as u16,
{
    BigEndian::read_u16(&buf[at..])
}

/// Relies on byteorder's `BigEndian::read_u32`: the first four bytes of the
/// buffer, most significant first. It panics on a shorter buffer.
#[verifier::external_body]
fn read_be_u32(buf: &[u8], at: usize) -> (r: u32)
    requires
        at + 4 <= buf@.len(),
    ensures
        r == be_at(buf@, at as int, 4) as u32,
{
    BigEndian::read_u32(&buf[at..])
}

/// Relies on byteorder's `BigEndian::read_u64`: the first eight bytes of the
/// buffer, most significant first. It panics on a shorter buffer.
#[verifier::external_body]
fn read_be_u64(buf: &[u8], at: usize) -> (r: u64)
    requires
        at + 8 <= buf@.len(),
    ensures
        r == be_at(buf@, at as int, 8) as u64,
{
    BigEndian::read_u64(&buf[at..])
}

/// A decoding session over one byte stream. It counts the bytes consumed.
pub struct Deserializer {
    reader: Vec<u8>,
    pos: usize,
    bytes_consumed: u32,
}

impl Deserializer {
    /// The stream under decoding.
    pub closed spec fn input(&self) -> Seq<u8> {
        self.reader@
    }

    /// The position of the next byte to decode.
    pub closed spec fn position(&self) -> int {
        self.pos as int
    }

    pub closed spec fn wf(&self) -> bool {
        &&& self.pos <= self.reader.len() <= u32::MAX
        &&& self.bytes_consumed as int == self.pos as int
    }

    /// A session at the start of `reader`. The byte counter is 32 bits wide,
    /// so the stream must fit its range.
    pub fn new(reader: Vec<u8>) -> (r: Deserializer)
        requires
            reader@.len() <= u32::MAX,
        ensures
            r.wf(),
            r.input() == reader@,
            r.position() == 0,
            r.bytes_consumed_spec() == 0,
    {
        Deserializer { reader, pos: 0, bytes_consumed: 0 }
    }

    pub closed spec fn bytes_consumed_spec(&self) -> nat {
        self.bytes_consumed as nat
    }

    /// The total of the bytes that the decoded primitives took.
    pub fn get_bytes_consumed(&self) -> (r: u32)
        requires
            self.wf(),
        ensures
            r as int == self.position(),
            r as nat == self.bytes_consumed_spec(),
    {
        self.bytes_consumed
    }

    /// Moves past `n` bytes that were just read.
    fn advance(&mut self, n: usize)
        requires
            old(self).wf(),
            old(self).pos + n <= old(self).reader.len(),
        ensures
            final(self).wf(),
            final(self).reader == old(self).reader,
            final(self).pos == old(self).pos + n,
    {
        self.pos = self.pos + n;
        self.bytes_consumed = self.bytes_consumed + n as u32;
    }

    fn has(&self, n: usize) -> (r: bool)
        requires
            self.wf(),
        ensures
            r == fits(self.input(), self.position(), n as int),
    {
        n <= self.reader.len() - self.pos
    }

    /// Decodes one value of shape `s` at the current position. On an error
    /// the position and the byte count are as they were before the call:
    /// a decode either succeeds whole or consumes nothing.
    pub fn decode(&mut self, s: &Schema) -> (r: Result<Value, DecodeError>)
        requires
            old(self).wf(),
        ensures
            final(self).wf(),
            final(self).input() == old(self).input(),
            match decode_at(*s, old(self).input(), old(self).position()) {
                Ok((v, q)) => r matches Ok(x) && x@ == v && final(self).position() == q,
                Err(e) => r == Err::<Value, DecodeError>(e) && final(self).position() == old(self).position()
                    && final(self).bytes_consumed_spec() == old(self).bytes_consumed_spec(),
            },
    {
        let start = self.pos;
        let count = self.bytes_consumed;
        let r = self.decode_value(s);
        if r.is_err() {
            self.pos = start;
            self.bytes_consumed = count;
        }
        r
    }

    fn decode_value(&mut self, s: &Schema) -> (r: Result<Value, DecodeError>)
        requires
            old(self).wf(),
        ensures
            final(self).wf(),
            final(self).input() == old(self).input(),
            match decode_at(*s, old(self).input(), old(self).position()) {
                Ok((v, q)) => r matches Ok(x) && x@ == v && final(self).position() == q,
                Err(e) => r == Err::<Value, DecodeError>(e),
            },
        decreases s,
    {
        match s {
            Schema::U8 => {
                if !self.has(1) {
                    return Err(DecodeError::ShortRead);
                }
                let x = self.reader[self.pos];
                self.advance(1);
                Ok(Value::U8(x))
            },
            Schema::I8 => {
                if !self.has(1) {
                    return Err(DecodeError::ShortRead);
                }
                let x = self.reader[self.pos];
                self.advance(1);
                Ok(Value::I8(#[verifier::truncate] (x as i8)))
            },
            Schema::U16 => {
                if !self.has(2) {
                    return Err(DecodeError::ShortRead);
                }
                let x = read_be_u16(self.reader.as_slice(), self.pos);
                self.advance(2);
                Ok(Value::U16(x))
            },
            Schema::I16 => {
                if !self.has(2) {
                    return Err(DecodeError::ShortRead);
                }
                let x = read_be_u16(self.reader.as_slice(), self.pos);
                self.advance(2);
                Ok(Value::I16(#[verifier::truncate] (x as i16)))
            },
            Schema::U32 => {
                if !self.has(4) {
                    return Err(DecodeError::ShortRead);
                }
                let x = read_be_u32(self.reader.as_slice(), self.pos);
                self.advance(4);
                Ok(Value::U32(x))
            },
            Schema::I32 => {
                if !self.has(4) {
                    return Err(DecodeError::ShortRead);
                }
                let x = read_be_u32(self.reader.as_slice(), self.pos);
                self.advance(4);
                Ok(Value::I32(#[verifier::truncate] (x as i32)))
            },
            Schema::U64 => {
                if !self.has(8) {
                    return Err(DecodeError::ShortRead);
                }
                let x = read_be_u64(self.reader.as_slice(), self.pos);
                self.advance(8);
                Ok(Value::U64(x))
            },
            Schema::I64 => {
                if !self.has(8) {
                    return Err(DecodeError::ShortRead);
                }
                let x = read_be_u64(self.reader.as_slice(), self.pos);
                self.advance(8);
                Ok(Value::I64(#[verifier::truncate] (x as i64)))
            },
            Schema::F32 => {
                if !self.has(4) {
                    return Err(DecodeError::ShortRead);
                }
                let x = read_be_u32(self.reader.as_slice(), self.pos);
                self.advance(4);
                Ok(Value::F32Bits(x))
            },
            Schema::F64 => {
                if !self.has(8) {
                    return Err(DecodeError::ShortRead);
                }
                let x = read_be_u64(self.reader.as_slice(), self.pos);
                self.advance(8);
                Ok(Value::F64Bits(x))
            },
            Schema::Sequence(e) => {
                if !self.has(4) {
                    return Err(DecodeError::ShortRead);
                }
                let count = read_be_u32(self.reader.as_slice(), self.pos);
                self.advance(4);
                proof {
                    lemma_be_bound(self.reader@.subrange(self.pos - 4, self.pos as int));
                }
                let ghost b = self.input();
                let ghost start = self.position();
                let mut out: Vec<Value> = Vec::new();
                let mut left: u32 = count;
                while left > 0
                    invariant
                        self.wf(),
                        self.input() == b,
                        b == old(self).input(),
                        *s == Schema::Sequence(*e),
                        start == old(self).position() + 4,
                        fits(b, old(self).position(), 4),
                        count as nat == be_at(b, old(self).position(), 4),
                        left <= count,
                        decode_many(**e, (count - left) as nat, b, start)
                            == Ok::<(Seq<Val>, int), DecodeError>((view_values(out@, out.len() as nat), self.position())),
                    ensures
                        left == 0,
                    decreases left,
                {
                    let ghost done = (count - left) as nat;
                    let ghost before = out;
                    let v = self.decode_value(&**e);
                    match v {
                        Ok(v) => {
                            out.push(v);
                            proof {
                                lemma_view_values_push(before@, v);
                                assert(out@ == before@.push(v));
                            }
                            left = left - 1;
                        },
                        Err(err) => {
                            proof {
                                assert((done + 1) as nat - 1 == done);
                                lemma_many_err_stays(**e, (done + 1) as nat, count as nat, b, start);
                            }
                            return Err(err);
                        },
                    }
                }
                Ok(Value::Sequence(out))
            },
            Schema::Struct(fs) => {
                let ghost b = self.input();
                let ghost start = self.position();
                let mut out: Vec<Value> = Vec::new();
                let mut i: usize = 0;
                while i < fs.len()
                    invariant
                        self.wf(),
                        self.input() == b,
                        b == old(self).input(),
                        start == old(self).position(),
                        *s == Schema::Struct(*fs),
                        i <= fs.len(),
                        out.len() == i,
                        decode_fields(fs@, i as nat, b, start)
                            == Ok::<(Seq<Val>, int), DecodeError>((view_values(out@, out.len() as nat), self.position())),
                    decreases fs.len() - i,
                {
                    let ghost before = out;
                    let v = self.decode_value(&fs[i]);
                    match v {
                        Ok(v) => {
                            out.push(v);
                            proof {
                                lemma_view_values_push(before@, v);
                                assert(out@ == before@.push(v));
                            }
                            i = i + 1;
                        },
                        Err(err) => {
                            proof {
                                assert((i + 1) as nat - 1 == i);
                                lemma_fields_err_stays(fs@, (i + 1) as nat, fs.len() as nat, b, start);
                            }
                            return Err(err);
                        },
                    }
                }
                Ok(Value::Struct(out))
            },
            Schema::Variants(vs) => {
                if !self.has(4) {
                    return Err(DecodeError::ShortRead);
                }
                let k = read_be_u32(self.reader.as_slice(), self.pos);
                proof {
                    lemma_be_bound(self.reader@.subrange(self.pos as int, self.pos + 4));
                }
                if k as usize >= vs.len() {
                    return Err(DecodeError::UnknownVariant(k));
                }
                self.advance(4);
                match &vs[k as usize] {
                    None => Ok(Value::Variant(k, None)),
                    Some(ps) => {
                        let v = self.decode_value(ps);
                        match v {
                            Ok(v) => Ok(Value::Variant(k, Some(Box::new(v)))),
                            Err(err) => Err(err),
                        }
                    },
                }
            },
            _ => Err(DecodeError::Unsupported),
        }
    }
}

proof fn lemma_fields_err_stays(fs: Seq<Schema>, n: nat, m: nat, b: Seq<u8>, p: int)
    requires
        0 < n <= m <= fs.len(),
        decode_fields(fs, n, b, p) is Err,
    ensures
        decode_fields(fs, m, b, p) == decode_fields(fs, n, b, p),
    decreases m,
{
    if m > n {
        lemma_fields_err_stays(fs, n, (m - 1) as nat, b, p);
    }
}

proof fn lemma_many_err_stays(e: Schema, n: nat, m: nat, b: Seq<u8>, p: int)
    requires
        n <= m,
        decode_many(e, n, b, p) is Err,
    ensures
        decode_many(e, m, b, p) == decode_many(e, n, b, p),
    decreases m,
{
    if m > n {
        lemma_many_err_stays(e, n, (m - 1) as nat, b, p);
    }
}

/// `256` to the power `n`.
pub open spec fn pow256(n: nat) -> nat
    decreases n,
{
    if n == 0 {
        1
    } else {
        256 * pow256((n - 1) as nat)
    }
}

/// A big-endian byte string denotes less than `256` to the power of its length.
pub proof fn lemma_be_bound(s: Seq<u8>)
    ensures
        be_value(s) < pow256(s.len()),
        s.len() == 2 ==> be_value(s) < 0x1_0000,
        s.len() == 4 ==> be_value(s) < 0x1_0000_0000,
        s.len() == 8 ==> be_value(s) < 0x1_0000_0000_0000_0000,
    decreases s.len(),
{
    if s.len() > 0 {
        lemma_be_bound(s.drop_last());
        let a = be_value(s.drop_last());
        let m = pow256((s.len() - 1) as nat);
        assert(a * 256 + s.last() < m * 256) by (nonlinear_arith)
            requires
                a < m,
                s.last() < 256,
        ;
    }
    reveal_with_fuel(pow256, 9);
}

proof fn lemma_view_values_prefix(vs: Seq<Value>, ws: Seq<Value>, n: nat)
    requires
        n <= vs.len(),
        n <= ws.len(),
        vs.subrange(0, n as int) == ws.subrange(0, n as int),
    ensures
        view_values(vs, n) == view_values(ws, n),
    decreases n,
{
    if n > 0 {
        assert(vs.subrange(0, n - 1) == vs.subrange(0, n as int).subrange(0, n - 1));
        assert(ws.subrange(0, n - 1) == ws.subrange(0, n as int).subrange(0, n - 1));
        assert(vs[n - 1] == vs.subrange(0, n as int)[n - 1]);
        assert(ws[n - 1] == ws.subrange(0, n as int)[n - 1]);
        lemma_view_values_prefix(vs, ws, (n - 1) as nat);
    }
}

proof fn lemma_view_values_push(vs: Seq<Value>, v: Value)
    ensures
        view_values(vs.push(v), vs.len() + 1) == view_values(vs, vs.len() as nat).push(value_view(v)),
{
    assert(vs.push(v).subrange(0, vs.len() as int) == vs.subrange(0, vs.len() as int));
    lemma_view_values_prefix(vs.push(v), vs, vs.len() as nat);
}

/// A sequence whose count prefix is zero decodes to the empty sequence,
/// and decoding stops right after the four bytes of the prefix.
pub proof fn lemma_empty_sequence(e: Schema, b: Seq<u8>, p: int)
    requires
        fits(b, p, 4),
        be_at(b, p, 4) == 0,
    ensures
        decode_at(Schema::Sequence(Box::new(e)), b, p) == Ok::<(Val, int), DecodeError>((Val::Sequence(Seq::empty()), p + 4)),
{
    assert(decode_many(e, 0, b, p + 4) == Ok::<(Seq<Val>, int), DecodeError>((Seq::empty(), p + 4)));
}

/// Decoding a discriminant `k` selects the variant declared `k`-th and
/// decodes its payload right after the discriminant; a discriminant past
/// the last variant is an error.
pub proof fn lemma_ordinal_variant(vs: Vec<Option<Schema>>, b: Seq<u8>, p: int)
    requires
        fits(b, p, 4),
    ensures
        ({
            let k = be_at(b, p, 4);
            decode_at(Schema::Variants(vs), b, p) == if k < vs.len() {
                match vs@[k as int] {
                    None => Ok((Val::Variant(k as u32, None), p + 4)),
                    Some(ps) => match decode_at(ps, b, p + 4) {
                        Ok((v, q)) => Ok((Val::Variant(k as u32, Some(Box::new(v))), q)),
                        Err(err) => Err(err),
                    },
                }
            } else {
                Err(DecodeError::UnknownVariant(k as u32))
            }
        }),
{
}

/// The `n` bytes that hold `v` big-endian, most significant first.
pub open spec fn be_bytes(v: nat, n: nat) -> Seq<u8>
    decreases n,
{
    if n == 0 {
        Seq::empty()
    } else {
        be_bytes(v / 256, (n - 1) as nat).push((v % 256) as u8)
    }
}

/// The encoding of the value `v` of shape `s`: the mirror of `decode_at`.
pub open spec fn encode(s: Schema, v: Val) -> Seq<u8>
    decreases s, 0nat,
{
    match s {
        Schema::U8 => match v { Val::U8(x) => seq![x], _ => Seq::empty() },
        Schema::I8 => match v { Val::I8(x) => seq![(#[verifier::truncate] (x as u8))], _ => Seq::empty() },
        Schema::U16 => match v { Val::U16(x) => be_bytes(x as nat, 2), _ => Seq::empty() },
        Schema::I16 => match v { Val::I16(x) => be_bytes((#[verifier::truncate] (x as u16)) as nat, 2), _ => Seq::empty() },
        Schema::U32 => match v { Val::U32(x) => be_bytes(x as nat, 4), _ => Seq::empty() },
        Schema::I32 => match v { Val::I32(x) => be_bytes((#[verifier::truncate] (x as u32)) as nat, 4), _ => Seq::empty() },
        Schema::U64 => match v { Val::U64(x) => be_bytes(x as nat, 8), _ => Seq::empty() },
        Schema::I64 => match v { Val::I64(x) => be_bytes((#[verifier::truncate] (x as u64)) as nat, 8), _ => Seq::empty() },
        Schema::F32 => match v { Val::F32Bits(x) => be_bytes(x as nat, 4), _ => Seq::empty() },
        Schema::F64 => match v { Val::F64Bits(x) => be_bytes(x as nat, 8), _ => Seq::empty() },
        Schema::Sequence(e) => match v {
            Val::Sequence(vs) => be_bytes(vs.len(), 4) + encode_many(*e, vs, vs.len()),
            _ => Seq::empty(),
        },
        Schema::Struct(fs) => match v {
            Val::Struct(vs) => encode_fields(fs@, vs, fs.len() as nat),
            _ => Seq::empty(),
        },
        Schema::Variants(cs) => match v {
            Val::Variant(k, pv) => be_bytes(k as nat, 4) + if k < cs.len() {
                match cs[k as int] {
                    Some(ps) => match pv {
                        Some(x) => encode(ps, *x),
                        None => Seq::empty(),
                    },
                    None => Seq::empty(),
                }
            } else {
                Seq::empty()
            },
            _ => Seq::empty(),
        },
        _ => Seq::empty(),
    }
}

/// The encodings of the first `n` of `vs`, each of shape `e`, one after another.
pub open spec fn encode_many(e: Schema, vs: Seq<Val>, n: nat) -> Seq<u8>
    decreases e, n + 1,
{
    if n == 0 || n > vs.len() {
        Seq::empty()
    } else {
        encode_many(e, vs, (n - 1) as nat) + encode(e, vs[n - 1])
    }
}

/// The encodings of the first `n` fields, one after another.
pub open spec fn encode_fields(fs: Seq<Schema>, vs: Seq<Val>, n: nat) -> Seq<u8>
    decreases fs, n,
{
    if n == 0 || n > fs.len() {
        Seq::empty()
    } else {
        encode_fields(fs, vs, (n - 1) as nat) + encode(fs[n - 1], vs[n - 1])
    }
}

/// Whether `v` is a value of shape `s` that the encoding can hold: a
/// sequence has fewer than 2^32 elements, a struct one value per field, and
/// a variant a declared ordinal with a payload exactly when it has one.
pub open spec fn conforms(s: Schema, v: Val) -> bool
    decreases s, 0nat,
{
    match s {
        Schema::U8 => v is U8,
        Schema::I8 => v is I8,
        Schema::U16 => v is U16,
        Schema::I16 => v is I16,
        Schema::U32 => v is U32,
        Schema::I32 => v is I32,
        Schema::U64 => v is U64,
        Schema::I64 => v is I64,
        Schema::F32 => v is F32Bits,
        Schema::F64 => v is F64Bits,
        Schema::Sequence(e) => match v {
            Val::Sequence(vs) => vs.len() < 0x1_0000_0000 && conforms_many(*e, vs, vs.len()),
            _ => false,
        },
        Schema::Struct(fs) => match v {
            Val::Struct(vs) => vs.len() == fs.len() && conforms_fields(fs@, vs, fs.len() as nat),
            _ => false,
        },
        Schema::Variants(cs) => match v {
            Val::Variant(k, pv) => k < cs.len() && match cs[k as int] {
                None => pv is None,
                Some(ps) => match pv {
                    Some(x) => conforms(ps, *x),
                    None => false,
                },
            },
            _ => false,
        },
        _ => false,
    }
}

/// Whether the first `n` of `vs` are values of shape `e`.
pub open spec fn conforms_many(e: Schema, vs: Seq<Val>, n: nat) -> bool
    decreases e, n + 1,
{
    if n == 0 || n > vs.len() {
        true
    } else {
        conforms_many(e, vs, (n - 1) as nat) && conforms(e, vs[n - 1])
    }
}

/// Whether the first `n` of `vs` are values of the shapes of the first `n` fields.
pub open spec fn conforms_fields(fs: Seq<Schema>, vs: Seq<Val>, n: nat) -> bool
    decreases fs, n,
{
    if n == 0 || n > fs.len() {
        true
    } else {
        conforms_fields(fs, vs, (n - 1) as nat) && conforms(fs[n - 1], vs[n - 1])
    }
}

proof fn lemma_be_bytes(v: nat, n: nat)
    requires
        v < pow256(n),
    ensures
        be_bytes(v, n).len() == n,
        be_value(be_bytes(v, n)) == v,
    decreases n,
{
    if n > 0 {
        let m = pow256((n - 1) as nat);
        assert(v / 256 < m) by (nonlinear_arith)
            requires
                v < 256 * m,
        ;
        lemma_be_bytes(v / 256, (n - 1) as nat);
        let s = be_bytes(v, n);
        assert(s.drop_last() =~= be_bytes(v / 256, (n - 1) as nat));
        assert((v / 256) * 256 + v % 256 == v) by (nonlinear_arith);
    }
}

/// Where `a + c` stands at `p` in `b`, `a` stands at `p` and `c` right after it.
proof fn lemma_split_at(b: Seq<u8>, p: int, a: Seq<u8>, c: Seq<u8>)
    requires
        0 <= p,
        p + a.len() + c.len() <= b.len(),
        b.subrange(p, p + (a + c).len()) == a + c,
    ensures
        b.subrange(p, p + a.len()) == a,
        b.subrange(p + a.len(), p + a.len() + c.len()) == c,
{
    assert(b.subrange(p, p + a.len()) =~= (a + c).subrange(0, a.len() as int));
    assert(b.subrange(p + a.len(), p + a.len() + c.len()) =~= (a + c).subrange(a.len() as int, (a + c).len() as int));
}

proof fn lemma_scalar(b: Seq<u8>, p: int, x: nat, n: nat)
    requires
        x < pow256(n),
        0 <= p,
        p + n <= b.len(),
        b.subrange(p, p + be_bytes(x, n).len()) == be_bytes(x, n),
    ensures
        be_bytes(x, n).len() == n,
        fits(b, p, n as int),
        be_at(b, p, n as int) == x,
{
    lemma_be_bytes(x, n);
}

/// Encoding a value that conforms to its shape and decoding the bytes gives
/// the value back, and decoding ends right after its encoding.
pub proof fn lemma_round_trip(s: Schema, v: Val, b: Seq<u8>, p: int)
    requires
        conforms(s, v),
        0 <= p,
        p + encode(s, v).len() <= b.len(),
        b.subrange(p, p + encode(s, v).len()) == encode(s, v),
    ensures
        decode_at(s, b, p) == Ok::<(Val, int), DecodeError>((v, p + encode(s, v).len())),
    decreases s, 0nat,
{
    reveal_with_fuel(pow256, 9);
    match s {
        Schema::U8 => {
            assert(b[p] == b.subrange(p, p + 1)[0]);
        },
        Schema::I8 => {
            let x = v->I8_0;
            assert(b[p] == b.subrange(p, p + 1)[0]);
            assert((#[verifier::truncate] ((#[verifier::truncate] (x as u8)) as i8)) == x) by (bit_vector);
        },
        Schema::U16 => {
            lemma_be_bytes(v->U16_0 as nat, 2);
        },
        Schema::I16 => {
            let x = v->I16_0;
            let u = #[verifier::truncate] (x as u16);
            lemma_be_bytes(u as nat, 2);
            assert((#[verifier::truncate] (u as i16)) == x) by (bit_vector)
                requires
                    u == #[verifier::truncate] (x as u16),
            ;
        },
        Schema::U32 => {
            lemma_be_bytes(v->U32_0 as nat, 4);
        },
        Schema::I32 => {
            let x = v->I32_0;
            let u = #[verifier::truncate] (x as u32);
            lemma_be_bytes(u as nat, 4);
            assert((#[verifier::truncate] (u as i32)) == x) by (bit_vector)
                requires
                    u == #[verifier::truncate] (x as u32),
            ;
        },
        Schema::U64 => {
            lemma_be_bytes(v->U64_0 as nat, 8);
        },
        Schema::I64 => {
            let x = v->I64_0;
            let u = #[verifier::truncate] (x as u64);
            lemma_be_bytes(u as nat, 8);
            assert((#[verifier::truncate] (u as i64)) == x) by (bit_vector)
                requires
                    u == #[verifier::truncate] (x as u64),
            ;
        },
        Schema::F32 => {
            lemma_be_bytes(v->F32Bits_0 as nat, 4);
        },
        Schema::F64 => {
            lemma_be_bytes(v->F64Bits_0 as nat, 8);
        },
        Schema::Sequence(e) => {
            let vs = v->Sequence_0;
            let head = be_bytes(vs.len(), 4);
            let body = encode_many(*e, vs, vs.len());
            lemma_be_bytes(vs.len(), 4);
            lemma_split_at(b, p, head, body);
            lemma_round_trip_many(*e, vs, vs.len(), b, p + 4);
            assert(vs.take(vs.len() as int) =~= vs);
        },
        Schema::Struct(fs) => {
            let vs = v->Struct_0;
            lemma_round_trip_fields(fs@, vs, fs.len() as nat, b, p);
            assert(vs.take(fs.len() as int) =~= vs);
        },
        Schema::Variants(cs) => {
            let k = v->Variant_0;
            let pv = v->Variant_1;
            let head = be_bytes(k as nat, 4);
            let body = encode(s, v).subrange(4, encode(s, v).len() as int);
            lemma_be_bytes(k as nat, 4);
            assert(encode(s, v) =~= head + body);
            lemma_split_at(b, p, head, body);
            match cs[k as int] {
                None => {},
                Some(ps) => {
                    let x = *pv->Some_0;
                    assert(body == encode(ps, x));
                    lemma_round_trip(ps, x, b, p + 4);
                    assert(v == Val::Variant(k, Some(Box::new(x))));
                },
            }
        },
        _ => {},
    }
}

proof fn lemma_round_trip_many(e: Schema, vs: Seq<Val>, n: nat, b: Seq<u8>, p: int)
    requires
        n <= vs.len(),
        conforms_many(e, vs, n),
        0 <= p,
        p + encode_many(e, vs, n).len() <= b.len(),
        b.subrange(p, p + encode_many(e, vs, n).len()) == encode_many(e, vs, n),
    ensures
        decode_many(e, n, b, p) == Ok::<(Seq<Val>, int), DecodeError>((vs.take(n as int), p + encode_many(e, vs, n).len())),
    decreases e, n + 1,
{
    if n == 0 {
        assert(vs.take(0) =~= Seq::<Val>::empty());
    } else {
        let pre = encode_many(e, vs, (n - 1) as nat);
        let last = encode(e, vs[n - 1]);
        lemma_split_at(b, p, pre, last);
        lemma_round_trip_many(e, vs, (n - 1) as nat, b, p);
        lemma_round_trip(e, vs[n - 1], b, p + pre.len());
        assert(vs.take(n - 1).push(vs[n - 1]) =~= vs.take(n as int));
    }
}

proof fn lemma_round_trip_fields(fs: Seq<Schema>, vs: Seq<Val>, n: nat, b: Seq<u8>, p: int)
    requires
        n <= fs.len(),
        fs.len() == vs.len(),
        conforms_fields(fs, vs, n),
        0 <= p,
        p + encode_fields(fs, vs, n).len() <= b.len(),
        b.subrange(p, p + encode_fields(fs, vs, n).len()) == encode_fields(fs, vs, n),
    ensures
        decode_fields(fs, n, b, p) == Ok::<(Seq<Val>, int), DecodeError>((vs.take(n as int), p + encode_fields(fs, vs, n).len())),
    decreases fs, n,
{
    if n == 0 {
        assert(vs.take(0) =~= Seq::<Val>::empty());
    } else {
        let pre = encode_fields(fs, vs, (n - 1) as nat);
        let last = encode(fs[n - 1], vs[n - 1]);
        lemma_split_at(b, p, pre, last);
        lemma_round_trip_fields(fs, vs, (n - 1) as nat, b, p);
        lemma_round_trip(fs[n - 1], vs[n - 1], b, p + pre.len());
        assert(vs.take(n - 1).push(vs[n - 1]) =~= vs.take(n as int));
    }
}

} // verus!
