//! The `Factual` encoding: values written as MessagePack arrays, strings and
//! nils, with structs laid out by translation tables, and read back from a
//! buffer of bytes.

use vstd::prelude::*;
use vstd::utf8::*;
use vstd::string::StringSliceAdditionalSpecFns;
use crate::services::sample;
use crate::msgpack::{
    array_len_bytes, be16_value, be32_value, lemma_be16_value, lemma_be32_value, marker_of, nil_bytes,
    read_data_u16_at, read_data_u32_at, read_data_u8_at, read_marker_at, str_bytes, str_len_bytes,
    write_array_len, write_nil, write_str, Marker,
};

verus! {

/// What reading a value can go wrong with.
#[derive(Clone, Copy, Debug, PartialEq, Eq, Structural)]
pub enum ValueReadError {
    /// The marker could not be read.
    InvalidMarkerRead,
    /// The data that follows a marker could not be read.
    InvalidDataRead,
    /// The marker is not one of those that the value may start with.
    TypeMismatch(Marker),
}

/// The errors of encoding and decoding.
#[derive(Clone, Copy, Debug, PartialEq, Eq, Structural)]
pub enum Error {
    /// The input ended inside a payload.
    IO,
    /// A struct came with another number of fields than it has.
    InvalidStructLength { expected: usize, actual: usize },
    /// A string was not valid UTF-8.
    DecodeStringError,
    /// The output refused bytes.
    ValueWriteError,
    /// A value could not be read.
    ValueReadError(ValueReadError),
    /// The input ended where a marker was due.
    MarkerReadError,
}

/// What a reader has left: a marker that was read and put back, if any,
/// and the bytes that were not read yet.
pub type ReadState = (Option<Marker>, Seq<u8>);

/// The error a read stops on, with the state it leaves the reader in.
pub type Failure = (Error, ReadState);

/// The marker that comes next: the one put back, or else the next byte.
pub open spec fn fetch_marker_spec(st: ReadState) -> Result<(Marker, ReadState), Failure> {
    match st.0 {
        Some(m) => Ok((m, (None, st.1))),
        None => if st.1.len() == 0 {
            Err((Error::MarkerReadError, st))
        } else {
            Ok((marker_of(st.1[0]), (None, st.1.drop_first())))
        },
    }
}

/// The next byte of the input taken as a marker, past any marker put back.
pub open spec fn raw_marker_spec(st: ReadState) -> Option<Marker> {
    if st.1.len() == 0 {
        None
    } else {
        Some(marker_of(st.1[0]))
    }
}

/// The next `n` bytes of the input, which must all be there; a short read
/// takes what is left, as reading a byte slice does.
pub open spec fn read_bytes_spec(st: ReadState, n: nat, e: Error) -> Result<(Seq<u8>, ReadState), Failure> {
    if st.1.len() < n {
        Err((e, (st.0, Seq::empty())))
    } else {
        Ok((st.1.take(n as int), (st.0, st.1.skip(n as int))))
    }
}

/// The length of an array header.
pub open spec fn read_array_len_spec(st: ReadState) -> Result<(usize, ReadState), Failure> {
    match fetch_marker_spec(st) {
        Err(e) => Err(e),
        Ok((m, st1)) => match m {
            Marker::FixArray(n) => Ok((n as usize, st1)),
            Marker::Array16 => match read_bytes_spec(st1, 2, Error::ValueReadError(ValueReadError::InvalidDataRead)) {
                Err(e) => Err(e),
                Ok((b, st2)) => Ok((be16_value(b[0], b[1]) as usize, st2)),
            },
            Marker::Array32 => match read_bytes_spec(st1, 4, Error::ValueReadError(ValueReadError::InvalidDataRead)) {
                Err(e) => Err(e),
                Ok((b, st2)) => Ok((be32_value(b[0], b[1], b[2], b[3]) as usize, st2)),
            },
            _ => Err((Error::ValueReadError(ValueReadError::TypeMismatch(m)), st1)),
        },
    }
}

/// The length of a string header.
pub open spec fn read_str_len_spec(st: ReadState) -> Result<(usize, ReadState), Failure> {
    match fetch_marker_spec(st) {
        Err(e) => Err(e),
        Ok((m, st1)) => match m {
            Marker::FixStr(n) => Ok((n as usize, st1)),
            Marker::Str8 => match read_bytes_spec(st1, 1, Error::ValueReadError(ValueReadError::InvalidDataRead)) {
                Err(e) => Err(e),
                Ok((b, st2)) => Ok((b[0] as usize, st2)),
            },
            Marker::Str16 => match read_bytes_spec(st1, 2, Error::ValueReadError(ValueReadError::InvalidDataRead)) {
                Err(e) => Err(e),
                Ok((b, st2)) => Ok((be16_value(b[0], b[1]) as usize, st2)),
            },
            Marker::Str32 => match read_bytes_spec(st1, 4, Error::ValueReadError(ValueReadError::InvalidDataRead)) {
                Err(e) => Err(e),
                Ok((b, st2)) => Ok((be32_value(b[0], b[1], b[2], b[3]) as usize, st2)),
            },
            _ => Err((Error::ValueReadError(ValueReadError::TypeMismatch(m)), st1)),
        },
    }
}

/// A string: its header, then that many bytes, which must be valid UTF-8.
pub open spec fn read_string_spec(st: ReadState) -> Result<(Seq<char>, ReadState), Failure> {
    match read_str_len_spec(st) {
        Err(e) => Err(e),
        Ok((len, st1)) => match read_bytes_spec(st1, len as nat, Error::IO) {
            Err(e) => Err(e),
            Ok((bytes, st2)) => if valid_utf8(bytes) {
                Ok((decode_utf8(bytes), st2))
            } else {
                Err((Error::DecodeStringError, st2))
            },
        },
    }
}

/// A decoder over a buffer of bytes.
pub struct Reader {
    rd: Vec<u8>,
    pos: usize,
    buf: Vec<u8>,
    marker: Option<Marker>,
}

impl View for Reader {
    type V = ReadState;

    closed spec fn view(&self) -> ReadState {
        (self.marker, self.rd@.skip(self.pos as int))
    }
}

impl Reader {
    /// The position lies within the input, whose length is a `usize`.
    pub closed spec fn wf(&self) -> bool {
        self.pos <= self.rd@.len() <= usize::MAX
    }

    /// A reader at the start of `rd`, with no marker put back.
    pub fn new(rd: Vec<u8>) -> (r: Self)
        ensures
            r.wf(),
            r@ == (None::<Marker>, rd@),
    {
        // the length of a vector is a usize
        let _ = rd.len();
        let r = Self { rd, pos: 0, buf: Vec::new(), marker: None };
        assert(r.rd@.skip(0) =~= r.rd@);
        r
    }

    fn fetch_marker(&mut self) -> (r: Result<Marker, Error>)
        requires
            old(self).wf(),
        ensures
            final(self).wf(),
            r matches Ok(m) ==> fetch_marker_spec(old(self)@) == Ok::<(Marker, ReadState), Failure>((m, final(self)@)),
            r matches Err(e) ==> fetch_marker_spec(old(self)@) == Err::<(Marker, ReadState), Failure>((e, final(self)@)),
    {
        match self.marker.take() {
            Some(marker) => Ok(marker),
            None => match read_marker_at(self.rd.as_slice(), self.pos) {
                Some(marker) => {
                    proof {
                        assert(self.rd@.skip(self.pos + 1) =~= self.rd@.skip(self.pos as int).drop_first());
                    }
                    self.pos = self.pos + 1;
                    Ok(marker)
                },
                None => Err(Error::MarkerReadError),
            },
        }
    }

    fn read_u16(&mut self) -> (r: Result<u16, Error>)
        requires
            old(self).wf(),
        ensures
            final(self).wf(),
            final(self).marker == old(self).marker,
            r matches Ok(v) ==> read_bytes_spec(old(self)@, 2, Error::ValueReadError(ValueReadError::InvalidDataRead))
                matches Ok((b, st)) && v == be16_value(b[0], b[1]) && st == final(self)@,
            r matches Err(e) ==> read_bytes_spec(old(self)@, 2, Error::ValueReadError(ValueReadError::InvalidDataRead))
                == Err::<(Seq<u8>, ReadState), Failure>((e, final(self)@)),
    {
        match read_data_u16_at(self.rd.as_slice(), self.pos) {
            Some(v) => {
                proof {
                    assert(self.rd@.skip(self.pos + 2) =~= self.rd@.skip(self.pos as int).skip(2));
                }
                self.pos = self.pos + 2;
                Ok(v)
            },
            None => {
                // a short read takes what is left
                proof {
                    assert(self.rd@.skip(self.rd@.len() as int) =~= Seq::<u8>::empty());
                }
                self.pos = self.rd.len();
                Err(Error::ValueReadError(ValueReadError::InvalidDataRead))
            },
        }
    }

    fn read_u32(&mut self) -> (r: Result<u32, Error>)
        requires
            old(self).wf(),
        ensures
            final(self).wf(),
            final(self).marker == old(self).marker,
            r matches Ok(v) ==> read_bytes_spec(old(self)@, 4, Error::ValueReadError(ValueReadError::InvalidDataRead))
                matches Ok((b, st)) && v == be32_value(b[0], b[1], b[2], b[3]) && st == final(self)@,
            r matches Err(e) ==> read_bytes_spec(old(self)@, 4, Error::ValueReadError(ValueReadError::InvalidDataRead))
                == Err::<(Seq<u8>, ReadState), Failure>((e, final(self)@)),
    {
        match read_data_u32_at(self.rd.as_slice(), self.pos) {
            Some(v) => {
                proof {
                    assert(self.rd@.skip(self.pos + 4) =~= self.rd@.skip(self.pos as int).skip(4));
                }
                self.pos = self.pos + 4;
                Ok(v)
            },
            None => {
                // a short read takes what is left
                proof {
                    assert(self.rd@.skip(self.rd@.len() as int) =~= Seq::<u8>::empty());
                }
                self.pos = self.rd.len();
                Err(Error::ValueReadError(ValueReadError::InvalidDataRead))
            },
        }
    }

    fn read_u8(&mut self) -> (r: Result<u8, Error>)
        requires
            old(self).wf(),
        ensures
            final(self).wf(),
            final(self).marker == old(self).marker,
            r matches Ok(v) ==> read_bytes_spec(old(self)@, 1, Error::ValueReadError(ValueReadError::InvalidDataRead))
                matches Ok((b, st)) && v == b[0] && st == final(self)@,
            r matches Err(e) ==> read_bytes_spec(old(self)@, 1, Error::ValueReadError(ValueReadError::InvalidDataRead))
                == Err::<(Seq<u8>, ReadState), Failure>((e, final(self)@)),
    {
        match read_data_u8_at(self.rd.as_slice(), self.pos) {
            Some(v) => {
                proof {
                    assert(self.rd@.skip(self.pos + 1) =~= self.rd@.skip(self.pos as int).skip(1));
                }
                self.pos = self.pos + 1;
                Ok(v)
            },
            None => {
                // a short read takes what is left
                proof {
                    assert(self.rd@.skip(self.rd@.len() as int) =~= Seq::<u8>::empty());
                }
                self.pos = self.rd.len();
                Err(Error::ValueReadError(ValueReadError::InvalidDataRead))
            },
        }
    }

    /// Reads the next `len` bytes of the input into the reader's buffer.
    fn read_slice(&mut self, len: usize) -> (r: Result<&[u8], Error>)
        requires
            old(self).wf(),
        ensures
            final(self).wf(),
            r matches Ok(b) ==> read_bytes_spec(old(self)@, len as nat, Error::IO)
                == Ok::<(Seq<u8>, ReadState), Failure>((b@, final(self)@)),
            r matches Err(e) ==> read_bytes_spec(old(self)@, len as nat, Error::IO)
                == Err::<(Seq<u8>, ReadState), Failure>((e, final(self)@)),
    {
        if len > self.rd.len() - self.pos {
            // a short read takes what is left
            proof {
                assert(self.rd@.skip(self.rd@.len() as int) =~= Seq::<u8>::empty());
            }
            self.pos = self.rd.len();
            return Err(Error::IO);
        }
        self.buf.clear();
        let mut i: usize = 0;
        while i < len
            invariant
                self.wf(),
                self.rd@ == old(self).rd@,
                self.pos == old(self).pos,
                self.marker == old(self).marker,
                i <= len,
                self.pos + len <= self.rd@.len(),
                self.buf@ =~= self.rd@.subrange(self.pos as int, self.pos + i),
            decreases len - i,
        {
            self.buf.push(self.rd[self.pos + i]);
            i = i + 1;
        }
        proof {
            assert(self.rd@.skip(self.pos as int).take(len as int) =~= self.buf@);
            assert(self.rd@.skip(self.pos + len) =~= self.rd@.skip(self.pos as int).skip(len as int));
        }
        self.pos = self.pos + len;
        assert(read_bytes_spec(old(self)@, len as nat, Error::IO)
            == Ok::<(Seq<u8>, ReadState), Failure>((self.buf@, self@)));
        let out = self.buf.as_slice();
        assert(out@ == self.buf@);
        Ok(out)
    }

    fn read_array_len(&mut self) -> (r: Result<usize, Error>)
        requires
            old(self).wf(),
        ensures
            final(self).wf(),
            r matches Ok(n) ==> read_array_len_spec(old(self)@) == Ok::<(usize, ReadState), Failure>((n, final(self)@)),
            r matches Err(e) ==> read_array_len_spec(old(self)@) == Err::<(usize, ReadState), Failure>((e, final(self)@)),
    {
        let marker = self.fetch_marker()?;
        let len = match marker {
            Marker::FixArray(len) => Ok(len as usize),
            Marker::Array16 => {
                let v = self.read_u16()?;
                Ok(v as usize)
            },
            Marker::Array32 => {
                let v = self.read_u32()?;
                Ok(v as usize)
            },
            _ => Err(Error::ValueReadError(ValueReadError::TypeMismatch(marker))),
        };
        len
    }

    fn read_str_len(&mut self) -> (r: Result<usize, Error>)
        requires
            old(self).wf(),
        ensures
            final(self).wf(),
            r matches Ok(n) ==> read_str_len_spec(old(self)@) == Ok::<(usize, ReadState), Failure>((n, final(self)@)),
            r matches Err(e) ==> read_str_len_spec(old(self)@) == Err::<(usize, ReadState), Failure>((e, final(self)@)),
    {
        let marker = self.fetch_marker()?;
        let len = match marker {
            Marker::FixStr(len) => Ok(len as usize),
            Marker::Str8 => {
                let v = self.read_u8()?;
                Ok(v as usize)
            },
            Marker::Str16 => {
                let v = self.read_u16()?;
                Ok(v as usize)
            },
            Marker::Str32 => {
                let v = self.read_u32()?;
                Ok(v as usize)
            },
            _ => Err(Error::ValueReadError(ValueReadError::TypeMismatch(marker))),
        };
        len
    }
}

/// `std::str::from_utf8`. Claimed, as std documents it: the bytes are taken
/// as a string exactly when they are valid UTF-8, and the string then has
/// exactly those bytes.
#[verifier::external_body]
fn str_from_utf8(v: &[u8]) -> (r: Option<&str>)
    ensures
        r is Some <==> valid_utf8(v@),
        r matches Some(s) ==> s.spec_bytes() == v@,
{
    std::str::from_utf8(v).ok()
}

/// A value with a MessagePack encoding, written under translation tables `TT`
/// and read back from a `Reader`.
pub trait Factual<TT>: Sized + DeepView {
    /// The bytes that `write` appends for this value under the tables `tt`.
    spec fn wire(&self, tt: &TT) -> Seq<u8>;

    /// The tables `tt` name only fields that this value has.
    spec fn writable(&self, tt: &TT) -> bool;

    /// What `read` makes of a reader in the state `st`: the value read and the
    /// state after it, or the error it stops on and the state it leaves.
    spec fn parse(st: ReadState) -> Result<(<Self as DeepView>::V, ReadState), Failure>;

    /// Every length in the value fits the 32-bit counts of the format.
    spec fn fits(&self) -> bool;

    /// Under the tables `tt`, what is written is laid out as it is read.
    spec fn faithful(tt: &TT) -> bool;

    /// `read` starts by taking the next marker, so that a marker put back
    /// stands for the byte it was read from.
    spec fn leads_with_marker() -> bool;

    /// Values of this type can be read (borrowed ones cannot: nothing would own them).
    spec fn readable() -> bool;

    /// Appends the encoding of the value under the tables `tt` to `wr`.
    fn write(&self, tt: &TT, wr: &mut Vec<u8>) -> (r: Result<(), Error>)
        requires
            self.writable(tt),
        ensures
            r is Ok,
            final(wr)@ == old(wr)@ + self.wire(tt),
    ;

    /// Reads one value from `rd`.
    fn read(rd: &mut Reader) -> (r: Result<Self, Error>)
        requires
            Self::readable(),
            old(rd).wf(),
        ensures
            final(rd).wf(),
            r matches Ok(v) ==> Self::parse(old(rd)@) == Ok::<(<Self as DeepView>::V, ReadState), Failure>(
                (v.deep_view(), final(rd)@),
            ),
            r matches Err(e) ==> Self::parse(old(rd)@) == Err::<(<Self as DeepView>::V, ReadState), Failure>((e, final(rd)@)),
    ;

    /// A marker put back reads as the byte it was read from.
    proof fn lemma_marker_put_back(b: u8, rest: Seq<u8>)
        ensures
            Self::leads_with_marker() ==> Self::parse((Some(marker_of(b)), rest)) == Self::parse(
                (None, seq![b] + rest),
            ),
    ;

    /// Reading what was written gives the value back and stops right after it.
    proof fn lemma_read_of_write(&self, tt: &TT, rest: Seq<u8>)
        requires
            Self::faithful(tt),
            self.fits(),
        ensures
            self.writable(tt),
            Self::parse((None, self.wire(tt) + rest)) == Ok::<(<Self as DeepView>::V, ReadState), Failure>(
                (self.deep_view(), (None, rest)),
            ),
            Self::leads_with_marker() ==> self.wire(tt).len() > 0 && marker_of(self.wire(tt)[0]) != Marker::Null,
    ;
}

/// Reads one value of the `Factual` type `T` from `rd`: what the fields of a
/// struct are read with.
pub fn subread<TT, T: Factual<TT>>(rd: &mut Reader) -> (r: Result<T, Error>)
    requires
        T::readable(),
        old(rd).wf(),
    ensures
        final(rd).wf(),
        r matches Ok(v) ==> T::parse(old(rd)@) == Ok::<(<T as DeepView>::V, ReadState), Failure>(
            (v.deep_view(), final(rd)@),
        ),
        r matches Err(e) ==> T::parse(old(rd)@) == Err::<(<T as DeepView>::V, ReadState), Failure>((e, final(rd)@)),
{
    T::read(rd)
}

/// Reading the header that `write_array_len` writes gives its length back.
pub proof fn lemma_read_array_len(len: u32, rest: Seq<u8>)
    ensures
        read_array_len_spec((None, array_len_bytes(len) + rest)) == Ok::<(usize, ReadState), Failure>(
            (len as usize, (None, rest)),
        ),
        marker_of((array_len_bytes(len) + rest)[0]) != Marker::Null,
{
    let s = array_len_bytes(len) + rest;
    if len < 16 {
        assert(s.drop_first() =~= rest);
    } else if len <= 0xffff {
        assert(s.drop_first().skip(2) =~= rest);
        lemma_be16_value(len as u16);
    } else {
        assert(s.drop_first().skip(4) =~= rest);
        lemma_be32_value(len);
    }
}

/// Reading the header that `write_str` writes gives its length back.
pub proof fn lemma_read_str_len(len: u32, rest: Seq<u8>)
    ensures
        read_str_len_spec((None, str_len_bytes(len) + rest)) == Ok::<(usize, ReadState), Failure>(
            (len as usize, (None, rest)),
        ),
        marker_of((str_len_bytes(len) + rest)[0]) != Marker::Null,
{
    let s = str_len_bytes(len) + rest;
    if len < 32 {
        assert(s.drop_first() =~= rest);
    } else if len < 256 {
        assert(s.drop_first().skip(1) =~= rest);
    } else if len <= 0xffff {
        assert(s.drop_first().skip(2) =~= rest);
        lemma_be16_value(len as u16);
    } else {
        assert(s.drop_first().skip(4) =~= rest);
        lemma_be32_value(len);
    }
}

impl<TT> Factual<TT> for String {
    open spec fn wire(&self, tt: &TT) -> Seq<u8> {
        str_bytes(self@)
    }

    open spec fn writable(&self, tt: &TT) -> bool {
        true
    }

    open spec fn parse(st: ReadState) -> Result<(Seq<char>, ReadState), Failure> {
        read_string_spec(st)
    }

    open spec fn fits(&self) -> bool {
        encode_utf8(self@).len() <= u32::MAX
    }

    open spec fn faithful(tt: &TT) -> bool {
        true
    }

    open spec fn leads_with_marker() -> bool {
        true
    }

    open spec fn readable() -> bool {
        true
    }

    fn write(&self, _tt: &TT, wr: &mut Vec<u8>) -> (r: Result<(), Error>) {
        write_str(wr, self.as_str());
        Ok(())
    }

    fn read(rd: &mut Reader) -> (r: Result<Self, Error>) {
        let len = rd.read_str_len()?;
        let bytes = rd.read_slice(len)?;
        match str_from_utf8(bytes) {
            Some(s) => {
                proof {
                    encode_utf8_decode_utf8(s@);
                }
                Ok(s.to_owned())
            },
            None => Err(Error::DecodeStringError),
        }
    }

    proof fn lemma_marker_put_back(b: u8, rest: Seq<u8>) {
        assert((seq![b] + rest).drop_first() =~= rest);
    }

    proof fn lemma_read_of_write(&self, tt: &TT, rest: Seq<u8>) {
        let enc = encode_utf8(self@);
        let n = enc.len() as u32;
        let hdr = str_len_bytes(n);
        assert(self.wire(tt) + rest =~= hdr + (enc + rest));
        lemma_read_str_len(n, enc + rest);
        assert((enc + rest).take(enc.len() as int) =~= enc);
        assert((enc + rest).skip(enc.len() as int) =~= rest);
        encode_utf8_valid_utf8(self@);
        encode_utf8_decode_utf8(self@);
        assert(self.wire(tt)[0] == (hdr + (enc + rest))[0]);
    }
}

impl<TT, T: Factual<TT>> Factual<TT> for Option<T> {
    open spec fn wire(&self, tt: &TT) -> Seq<u8> {
        match self {
            Some(v) => v.wire(tt),
            None => nil_bytes(),
        }
    }

    open spec fn writable(&self, tt: &TT) -> bool {
        match self {
            Some(v) => v.writable(tt),
            None => true,
        }
    }

    open spec fn parse(st: ReadState) -> Result<(Option<<T as DeepView>::V>, ReadState), Failure> {
        match raw_marker_spec(st) {
            None => Err((Error::MarkerReadError, st)),
            Some(Marker::Null) => Ok((None, (st.0, st.1.drop_first()))),
            Some(m) => match T::parse((Some(m), st.1.drop_first())) {
                Ok((v, st2)) => Ok((Some(v), st2)),
                Err(e) => Err(e),
            },
        }
    }

    open spec fn fits(&self) -> bool {
        match self {
            Some(v) => v.fits(),
            None => true,
        }
    }

    open spec fn faithful(tt: &TT) -> bool {
        T::faithful(tt) && T::leads_with_marker()
    }

    open spec fn leads_with_marker() -> bool {
        false
    }

    open spec fn readable() -> bool {
        T::readable()
    }

    fn write(&self, tt: &TT, wr: &mut Vec<u8>) -> (r: Result<(), Error>) {
        match self {
            Some(v) => v.write(tt, wr)?,
            None => write_nil(wr),
        };
        Ok(())
    }

    fn read(rd: &mut Reader) -> (r: Result<Self, Error>) {
        match read_marker_at(rd.rd.as_slice(), rd.pos) {
            None => Err(Error::MarkerReadError),
            Some(Marker::Null) => {
                proof {
                    assert(rd.rd@.skip(rd.pos + 1) =~= rd.rd@.skip(rd.pos as int).drop_first());
                }
                rd.pos = rd.pos + 1;
                Ok(None)
            },
            Some(marker) => {
                proof {
                    assert(rd.rd@.skip(rd.pos + 1) =~= rd.rd@.skip(rd.pos as int).drop_first());
                }
                rd.pos = rd.pos + 1;
                rd.marker = Some(marker);
                Ok(Some(T::read(rd)?))
            },
        }
    }

    proof fn lemma_marker_put_back(b: u8, rest: Seq<u8>) {
    }

    proof fn lemma_read_of_write(&self, tt: &TT, rest: Seq<u8>) {
        match self {
            Some(v) => {
                v.lemma_read_of_write(tt, rest);
                let s = v.wire(tt) + rest;
                T::lemma_marker_put_back(s[0], s.drop_first());
                assert(seq![s[0]] + s.drop_first() =~= s);
            },
            None => {
                assert((nil_bytes() + rest).drop_first() =~= rest);
            },
        }
    }
}

/// The encodings of `items`, one after the other.
pub open spec fn items_wire<TT, T: Factual<TT>>(items: Seq<T>, tt: &TT) -> Seq<u8>
    decreases items.len(),
{
    if items.len() == 0 {
        Seq::empty()
    } else {
        items_wire(items.drop_last(), tt) + items.last().wire(tt)
    }
}

/// Reading `n` values of `T` one after the other.
pub open spec fn parse_items<TT, T: Factual<TT>>(n: nat, st: ReadState) -> Result<
    (Seq<<T as DeepView>::V>, ReadState),
    Failure,
>
    decreases n,
{
    if n == 0 {
        Ok((Seq::empty(), st))
    } else {
        match parse_items::<TT, T>((n - 1) as nat, st) {
            Err(e) => Err(e),
            Ok((xs, st1)) => match T::parse(st1) {
                Err(e) => Err(e),
                Ok((x, st2)) => Ok((xs.push(x), st2)),
            },
        }
    }
}

/// The deep views of `items`.
pub open spec fn deep_views<T: DeepView>(items: Seq<T>) -> Seq<<T as DeepView>::V> {
    Seq::new(items.len(), |i: int| items[i].deep_view())
}

/// Once reading items fails, reading more of them fails the same way.
proof fn lemma_parse_items_err<TT, T: Factual<TT>>(k: nat, n: nat, st: ReadState)
    requires
        k <= n,
        parse_items::<TT, T>(k, st) is Err,
    ensures
        parse_items::<TT, T>(n, st) == parse_items::<TT, T>(k, st),
    decreases n - k,
{
    if k < n {
        lemma_parse_items_err::<TT, T>(k, (n - 1) as nat, st);
    }
}

/// Reading the encodings of `items` gives them back, one after the other.
proof fn lemma_parse_items_wire<TT, T: Factual<TT>>(items: Seq<T>, tt: &TT, rest: Seq<u8>)
    requires
        T::faithful(tt),
        forall|i: int| 0 <= i < items.len() ==> #[trigger] items[i].fits(),
    ensures
        parse_items::<TT, T>(items.len(), (None, items_wire(items, tt) + rest)) == Ok::<
            (Seq<<T as DeepView>::V>, ReadState),
            Failure,
        >((deep_views(items), (None, rest))),
    decreases items.len(),
{
    if items.len() > 0 {
        let init = items.drop_last();
        let last = items.last();
        assert(last == items[items.len() - 1]);
        assert(forall|i: int| 0 <= i < init.len() ==> #[trigger] init[i] == items[i]);
        lemma_parse_items_wire::<TT, T>(init, tt, last.wire(tt) + rest);
        assert(items_wire(items, tt) + rest =~= items_wire(init, tt) + (last.wire(tt) + rest));
        last.lemma_read_of_write(tt, rest);
        assert(deep_views(init).push(last.deep_view()) =~= deep_views(items));
    } else {
        assert(deep_views(items) =~= Seq::<<T as DeepView>::V>::empty());
        assert(items_wire(items, tt) + rest =~= rest);
    }
}

impl<TT, T: Factual<TT>> Factual<TT> for Vec<T> {
    open spec fn wire(&self, tt: &TT) -> Seq<u8> {
        array_len_bytes(self@.len() as u32) + items_wire(self@, tt)
    }

    open spec fn writable(&self, tt: &TT) -> bool {
        forall|i: int| 0 <= i < self@.len() ==> #[trigger] self@[i].writable(tt)
    }

    open spec fn parse(st: ReadState) -> Result<(Seq<<T as DeepView>::V>, ReadState), Failure> {
        match read_array_len_spec(st) {
            Err(e) => Err(e),
            Ok((n, st1)) => parse_items::<TT, T>(n as nat, st1),
        }
    }

    open spec fn fits(&self) -> bool {
        &&& self@.len() <= u32::MAX
        &&& forall|i: int| 0 <= i < self@.len() ==> #[trigger] self@[i].fits()
    }

    open spec fn faithful(tt: &TT) -> bool {
        T::faithful(tt)
    }

    open spec fn leads_with_marker() -> bool {
        true
    }

    open spec fn readable() -> bool {
        T::readable()
    }

    fn write(&self, tt: &TT, wr: &mut Vec<u8>) -> (r: Result<(), Error>) {
        write_array_len(wr, self.len() as u32);
        let mut i: usize = 0;
        while i < self.len()
            invariant
                i <= self@.len(),
                forall|j: int| 0 <= j < self@.len() ==> #[trigger] self@[j].writable(tt),
                wr@ == old(wr)@ + array_len_bytes(self@.len() as u32) + items_wire(self@.take(i as int), tt),
            decreases self@.len() - i,
        {
            self[i].write(tt, wr)?;
            proof {
                assert(self@.take(i + 1).drop_last() =~= self@.take(i as int));
            }
            i = i + 1;
        }
        assert(self@.take(i as int) =~= self@);
        Ok(())
    }

    fn read(rd: &mut Reader) -> (r: Result<Self, Error>) {
        let ghost st0 = rd@;
        let len = rd.read_array_len()?;
        let ghost st1 = rd@;
        let mut res: Vec<T> = Vec::new();
        assert(res.deep_view() =~= Seq::<<T as DeepView>::V>::empty());
        let mut i: usize = 0;
        while i < len
            invariant
                T::readable(),
                rd.wf(),
                i <= len,
                st0 == old(rd)@,
                Self::parse(st0) == parse_items::<TT, T>(len as nat, st1),
                parse_items::<TT, T>(i as nat, st1) == Ok::<(Seq<<T as DeepView>::V>, ReadState), Failure>(
                    (res.deep_view(), rd@),
                ),
            decreases len - i,
        {
            let ghost before = rd@;
            let item = match T::read(rd) {
                Ok(item) => item,
                Err(e) => {
                    proof {
                        assert(T::parse(before) == Err::<(<T as DeepView>::V, ReadState), Failure>((e, rd@)));
                        assert(parse_items::<TT, T>((i + 1) as nat, st1) == Err::<(Seq<<T as DeepView>::V>, ReadState), Failure>((e, rd@)));
                        lemma_parse_items_err::<TT, T>((i + 1) as nat, len as nat, st1);
                    }
                    return Err(e);
                },
            };
            let ghost prev = res.deep_view();
            res.push(item);
            proof {
                assert(res.deep_view() =~= prev.push(item.deep_view()));
            }
            i = i + 1;
        }
        Ok(res)
    }

    proof fn lemma_marker_put_back(b: u8, rest: Seq<u8>) {
        assert((seq![b] + rest).drop_first() =~= rest);
    }

    proof fn lemma_read_of_write(&self, tt: &TT, rest: Seq<u8>) {
        let items = self@;
        let n = items.len() as u32;
        assert forall|i: int| 0 <= i < items.len() implies #[trigger] items[i].writable(tt) by {
            items[i].lemma_read_of_write(tt, rest);
        }
        assert(self.wire(tt) + rest =~= array_len_bytes(n) + (items_wire(items, tt) + rest));
        lemma_read_array_len(n, items_wire(items, tt) + rest);
        lemma_parse_items_wire::<TT, T>(items, tt, rest);
        assert(deep_views(items) =~= self.deep_view());
        assert(self.wire(tt)[0] == (array_len_bytes(n) + (items_wire(items, tt) + rest))[0]);
    }
}

/// For each struct of the schema, the field that fills each slot of the
/// struct as the peer lays it out: `Some(i)` is the struct's own field `i`,
/// `None` a field that the struct does not have, sent as nil.
#[allow(non_snake_case)]
pub struct TranslationTables {
    pub sample__Cookie: Vec<Option<u32>>,
    pub sample__Emoji: Vec<Option<u32>>,
}

impl TranslationTables {
    /// The tables of a peer that lays every struct out as this side does.
    pub fn identity() -> (tt: Self)
        ensures
            tt.sample__Cookie@ == identity_slots(3),
            tt.sample__Emoji@ == identity_slots(2),
    {
        let tt = TranslationTables {
            sample__Cookie: vec![Some(0u32), Some(1u32), Some(2u32)],
            sample__Emoji: vec![Some(0u32), Some(1u32)],
        };
        assert(tt.sample__Cookie@ =~= identity_slots(3));
        assert(tt.sample__Emoji@ =~= identity_slots(2));
        tt
    }
}

/// Every slot names a field below `n`, or none.
pub open spec fn slots_below(slots: Seq<Option<u32>>, n: u32) -> bool {
    forall|i: int| 0 <= i < slots.len() ==> (#[trigger] slots[i] matches Some(k) ==> k < n)
}

/// The slots of a struct of `n` fields that the peer lays out as it does.
pub open spec fn identity_slots(n: u32) -> Seq<Option<u32>> {
    Seq::new(n as nat, |i: int| Some(i as u32))
}

/// What one slot of a cookie holds.
pub open spec fn cookie_slot_wire(c: &sample::Cookie, slot: Option<u32>, tt: &TranslationTables) -> Seq<u8> {
    match slot {
        Some(k) => if k == 0 {
            Factual::<TranslationTables>::wire(&c.key, tt)
        } else if k == 1 {
            Factual::<TranslationTables>::wire(&c.value, tt)
        } else {
            Factual::<TranslationTables>::wire(&c.comment, tt)
        },
        None => nil_bytes(),
    }
}

/// What the slots of a cookie hold, one after the other.
pub open spec fn cookie_slots_wire(c: &sample::Cookie, slots: Seq<Option<u32>>, tt: &TranslationTables) -> Seq<u8>
    decreases slots.len(),
{
    if slots.len() == 0 {
        Seq::empty()
    } else {
        cookie_slots_wire(c, slots.drop_last(), tt) + cookie_slot_wire(c, slots.last(), tt)
    }
}

/// A struct header that announces `expected` fields.
pub open spec fn read_struct_len_spec(st: ReadState, expected: usize) -> Result<ReadState, Failure> {
    match read_array_len_spec(st) {
        Err(e) => Err(e),
        Ok((len, st1)) => if len != expected {
            Err((Error::InvalidStructLength { expected, actual: len }, st1))
        } else {
            Ok(st1)
        },
    }
}

impl Factual<TranslationTables> for sample::Cookie {
    open spec fn wire(&self, tt: &TranslationTables) -> Seq<u8> {
        array_len_bytes(tt.sample__Cookie@.len() as u32) + cookie_slots_wire(self, tt.sample__Cookie@, tt)
    }

    open spec fn writable(&self, tt: &TranslationTables) -> bool {
        slots_below(tt.sample__Cookie@, 3)
    }

    open spec fn parse(st: ReadState) -> Result<(<sample::Cookie as DeepView>::V, ReadState), Failure> {
        match read_struct_len_spec(st, 3) {
            Err(e) => Err(e),
            Ok(st1) => match <String as Factual<TranslationTables>>::parse(st1) {
                Err(e) => Err(e),
                Ok((key, st2)) => match <String as Factual<TranslationTables>>::parse(st2) {
                    Err(e) => Err(e),
                    Ok((value, st3)) => match <Option<String> as Factual<TranslationTables>>::parse(st3) {
                        Err(e) => Err(e),
                        Ok((comment, st4)) => Ok(((key, value, comment), st4)),
                    },
                },
            },
        }
    }

    open spec fn fits(&self) -> bool {
        &&& Factual::<TranslationTables>::fits(&self.key)
        &&& Factual::<TranslationTables>::fits(&self.value)
        &&& Factual::<TranslationTables>::fits(&self.comment)
    }

    open spec fn faithful(tt: &TranslationTables) -> bool {
        tt.sample__Cookie@ == identity_slots(3)
    }

    open spec fn leads_with_marker() -> bool {
        true
    }

    open spec fn readable() -> bool {
        true
    }

    fn write(&self, tt: &TranslationTables, wr: &mut Vec<u8>) -> (r: Result<(), Error>) {
        write_array_len(wr, tt.sample__Cookie.len() as u32);
        let mut i: usize = 0;
        while i < tt.sample__Cookie.len()
            invariant
                i <= tt.sample__Cookie@.len(),
                slots_below(tt.sample__Cookie@, 3),
                wr@ == old(wr)@ + array_len_bytes(tt.sample__Cookie@.len() as u32)
                    + cookie_slots_wire(self, tt.sample__Cookie@.take(i as int), tt),
            decreases tt.sample__Cookie@.len() - i,
        {
            let slot = tt.sample__Cookie[i];
            proof {
                assert(tt.sample__Cookie@.take(i + 1).drop_last() =~= tt.sample__Cookie@.take(i as int));
                assert(slot == tt.sample__Cookie@[i as int]);
            }
            match slot {
                Some(index) => match index {
                    0 => self.key.write(tt, wr)?,
                    1 => self.value.write(tt, wr)?,
                    _ => self.comment.write(tt, wr)?,
                },
                None => write_nil(wr),
            }
            i = i + 1;
        }
        assert(tt.sample__Cookie@.take(i as int) =~= tt.sample__Cookie@);
        Ok(())
    }

    fn read(rd: &mut Reader) -> (r: Result<Self, Error>) {
        let len = rd.read_array_len()?;
        if len != 3 {
            return Err(Error::InvalidStructLength { expected: 3, actual: len });
        }
        // the fields come in the order of the struct
        let res = sample::Cookie {
            key: subread::<TranslationTables, String>(rd)?,
            value: subread::<TranslationTables, String>(rd)?,
            comment: subread::<TranslationTables, Option<String>>(rd)?,
        };
        Ok(res)
    }

    proof fn lemma_marker_put_back(b: u8, rest: Seq<u8>) {
        assert((seq![b] + rest).drop_first() =~= rest);
    }

    proof fn lemma_read_of_write(&self, tt: &TranslationTables, rest: Seq<u8>) {
        let kw = Factual::<TranslationTables>::wire(&self.key, tt);
        let vw = Factual::<TranslationTables>::wire(&self.value, tt);
        let cw = Factual::<TranslationTables>::wire(&self.comment, tt);
        lemma_cookie_identity_slots(self, tt);
        let body = kw + (vw + (cw + rest));
        assert(self.wire(tt) + rest =~= array_len_bytes(3) + body);
        lemma_read_array_len(3, body);
        self.key.lemma_read_of_write(tt, vw + (cw + rest));
        self.value.lemma_read_of_write(tt, cw + rest);
        self.comment.lemma_read_of_write(tt, rest);
        assert(self.wire(tt)[0] == (array_len_bytes(3) + body)[0]);
    }
}

/// Under the identity table, a cookie's slots hold its key, value and comment in turn.
proof fn lemma_cookie_identity_slots(c: &sample::Cookie, tt: &TranslationTables)
    requires
        tt.sample__Cookie@ == identity_slots(3),
    ensures
        cookie_slots_wire(c, tt.sample__Cookie@, tt) == Factual::<TranslationTables>::wire(&c.key, tt)
            + Factual::<TranslationTables>::wire(&c.value, tt) + Factual::<TranslationTables>::wire(&c.comment, tt),
{
    let slots = tt.sample__Cookie@;
    let s2 = slots.drop_last();
    let s1 = s2.drop_last();
    let s0 = s1.drop_last();
    assert(slots.last() == Some(2u32));
    assert(s2.last() == Some(1u32));
    assert(s1.last() == Some(0u32));
    assert(s0 =~= Seq::<Option<u32>>::empty());
    let kw = Factual::<TranslationTables>::wire(&c.key, tt);
    let vw = Factual::<TranslationTables>::wire(&c.value, tt);
    let cw = Factual::<TranslationTables>::wire(&c.comment, tt);
    assert(cookie_slots_wire(c, s0, tt) == Seq::<u8>::empty());
    assert(cookie_slot_wire(c, s1.last(), tt) == kw);
    assert(cookie_slots_wire(c, s1, tt) == cookie_slots_wire(c, s0, tt) + kw);
    assert(cookie_slots_wire(c, s1, tt) =~= kw);
    assert(cookie_slot_wire(c, s2.last(), tt) == vw);
    assert(cookie_slots_wire(c, s2, tt) == kw + vw);
    assert(cookie_slot_wire(c, slots.last(), tt) == cw);
}

/// What one slot of an emoji holds.
pub open spec fn emoji_slot_wire(e: &sample::Emoji, slot: Option<u32>, tt: &TranslationTables) -> Seq<u8> {
    match slot {
        Some(k) => if k == 0 {
            Factual::<TranslationTables>::wire(&e.shortcode, tt)
        } else {
            Factual::<TranslationTables>::wire(&e.image_url, tt)
        },
        None => nil_bytes(),
    }
}

/// What the slots of an emoji hold, one after the other.
pub open spec fn emoji_slots_wire(e: &sample::Emoji, slots: Seq<Option<u32>>, tt: &TranslationTables) -> Seq<u8>
    decreases slots.len(),
{
    if slots.len() == 0 {
        Seq::empty()
    } else {
        emoji_slots_wire(e, slots.drop_last(), tt) + emoji_slot_wire(e, slots.last(), tt)
    }
}

impl Factual<TranslationTables> for sample::Emoji {
    open spec fn wire(&self, tt: &TranslationTables) -> Seq<u8> {
        array_len_bytes(tt.sample__Emoji@.len() as u32) + emoji_slots_wire(self, tt.sample__Emoji@, tt)
    }

    open spec fn writable(&self, tt: &TranslationTables) -> bool {
        slots_below(tt.sample__Emoji@, 2)
    }

    open spec fn parse(st: ReadState) -> Result<(<sample::Emoji as DeepView>::V, ReadState), Failure> {
        match read_struct_len_spec(st, 2) {
            Err(e) => Err(e),
            Ok(st1) => match <String as Factual<TranslationTables>>::parse(st1) {
                Err(e) => Err(e),
                Ok((shortcode, st2)) => match <String as Factual<TranslationTables>>::parse(st2) {
                    Err(e) => Err(e),
                    Ok((image_url, st3)) => Ok(((shortcode, image_url), st3)),
                },
            },
        }
    }

    open spec fn fits(&self) -> bool {
        &&& Factual::<TranslationTables>::fits(&self.shortcode)
        &&& Factual::<TranslationTables>::fits(&self.image_url)
    }

    open spec fn faithful(tt: &TranslationTables) -> bool {
        tt.sample__Emoji@ == identity_slots(2)
    }

    open spec fn leads_with_marker() -> bool {
        true
    }

    open spec fn readable() -> bool {
        true
    }

    fn write(&self, tt: &TranslationTables, wr: &mut Vec<u8>) -> (r: Result<(), Error>) {
        write_array_len(wr, tt.sample__Emoji.len() as u32);
        let mut i: usize = 0;
        while i < tt.sample__Emoji.len()
            invariant
                i <= tt.sample__Emoji@.len(),
                slots_below(tt.sample__Emoji@, 2),
                wr@ == old(wr)@ + array_len_bytes(tt.sample__Emoji@.len() as u32)
                    + emoji_slots_wire(self, tt.sample__Emoji@.take(i as int), tt),
            decreases tt.sample__Emoji@.len() - i,
        {
            let slot = tt.sample__Emoji[i];
            proof {
                assert(tt.sample__Emoji@.take(i + 1).drop_last() =~= tt.sample__Emoji@.take(i as int));
                assert(slot == tt.sample__Emoji@[i as int]);
            }
            match slot {
                Some(index) => match index {
                    0 => self.shortcode.write(tt, wr)?,
                    _ => self.image_url.write(tt, wr)?,
                },
                None => write_nil(wr),
            }
            i = i + 1;
        }
        assert(tt.sample__Emoji@.take(i as int) =~= tt.sample__Emoji@);
        Ok(())
    }

    fn read(rd: &mut Reader) -> (r: Result<Self, Error>) {
        let len = rd.read_array_len()?;
        if len != 2 {
            return Err(Error::InvalidStructLength { expected: 2, actual: len });
        }
        // the fields come in the order of the struct
        let res = sample::Emoji {
            shortcode: subread::<TranslationTables, String>(rd)?,
            image_url: subread::<TranslationTables, String>(rd)?,
        };
        Ok(res)
    }

    proof fn lemma_marker_put_back(b: u8, rest: Seq<u8>) {
        assert((seq![b] + rest).drop_first() =~= rest);
    }

    proof fn lemma_read_of_write(&self, tt: &TranslationTables, rest: Seq<u8>) {
        let sw = Factual::<TranslationTables>::wire(&self.shortcode, tt);
        let iw = Factual::<TranslationTables>::wire(&self.image_url, tt);
        lemma_emoji_identity_slots(self, tt);
        let body = sw + (iw + rest);
        assert(self.wire(tt) + rest =~= array_len_bytes(2) + body);
        lemma_read_array_len(2, body);
        self.shortcode.lemma_read_of_write(tt, iw + rest);
        self.image_url.lemma_read_of_write(tt, rest);
        assert(self.wire(tt)[0] == (array_len_bytes(2) + body)[0]);
    }
}

/// Under the identity table, an emoji's slots hold its shortcode and image address in turn.
proof fn lemma_emoji_identity_slots(e: &sample::Emoji, tt: &TranslationTables)
    requires
        tt.sample__Emoji@ == identity_slots(2),
    ensures
        emoji_slots_wire(e, tt.sample__Emoji@, tt) == Factual::<TranslationTables>::wire(&e.shortcode, tt)
            + Factual::<TranslationTables>::wire(&e.image_url, tt),
{
    let slots = tt.sample__Emoji@;
    let s1 = slots.drop_last();
    let s0 = s1.drop_last();
    assert(slots.last() == Some(1u32));
    assert(s1.last() == Some(0u32));
    assert(s0 =~= Seq::<Option<u32>>::empty());
    let sw = Factual::<TranslationTables>::wire(&e.shortcode, tt);
    let iw = Factual::<TranslationTables>::wire(&e.image_url, tt);
    assert(emoji_slots_wire(e, s0, tt) == Seq::<u8>::empty());
    assert(emoji_slot_wire(e, s1.last(), tt) == sw);
    assert(emoji_slots_wire(e, s1, tt) == emoji_slots_wire(e, s0, tt) + sw);
    assert(emoji_slots_wire(e, s1, tt) =~= sw);
    assert(emoji_slot_wire(e, slots.last(), tt) == iw);
}

impl<'a, TT> Factual<TT> for &'a str {
    open spec fn wire(&self, tt: &TT) -> Seq<u8> {
        str_bytes(self@)
    }

    open spec fn writable(&self, tt: &TT) -> bool {
        true
    }

    /// What reading these bytes as a `String` gives.
    open spec fn parse(st: ReadState) -> Result<(Seq<char>, ReadState), Failure> {
        read_string_spec(st)
    }

    open spec fn fits(&self) -> bool {
        encode_utf8(self@).len() <= u32::MAX
    }

    open spec fn faithful(tt: &TT) -> bool {
        true
    }

    open spec fn leads_with_marker() -> bool {
        true
    }

    open spec fn readable() -> bool {
        false
    }

    fn write(&self, _tt: &TT, wr: &mut Vec<u8>) -> (r: Result<(), Error>) {
        write_str(wr, *self);
        Ok(())
    }

    /// Never called: a borrowed string has nothing to borrow from.
    fn read(rd: &mut Reader) -> (r: Result<Self, Error>) {
        Err(Error::DecodeStringError)
    }

    proof fn lemma_marker_put_back(b: u8, rest: Seq<u8>) {
        assert((seq![b] + rest).drop_first() =~= rest);
    }

    proof fn lemma_read_of_write(&self, tt: &TT, rest: Seq<u8>) {
        let enc = encode_utf8(self@);
        let n = enc.len() as u32;
        let hdr = str_len_bytes(n);
        assert(self.wire(tt) + rest =~= hdr + (enc + rest));
        lemma_read_str_len(n, enc + rest);
        assert((enc + rest).take(enc.len() as int) =~= enc);
        assert((enc + rest).skip(enc.len() as int) =~= rest);
        encode_utf8_valid_utf8(self@);
        encode_utf8_decode_utf8(self@);
        assert(self.wire(tt)[0] == (hdr + (enc + rest))[0]);
    }
}

impl<'a, TT, T: Factual<TT>> Factual<TT> for &'a [T] {
    open spec fn wire(&self, tt: &TT) -> Seq<u8> {
        array_len_bytes(self@.len() as u32) + items_wire(self@, tt)
    }

    open spec fn writable(&self, tt: &TT) -> bool {
        forall|i: int| 0 <= i < self@.len() ==> #[trigger] self@[i].writable(tt)
    }

    /// What reading these bytes as a `Vec` gives.
    open spec fn parse(st: ReadState) -> Result<(Seq<<T as DeepView>::V>, ReadState), Failure> {
        match read_array_len_spec(st) {
            Err(e) => Err(e),
            Ok((n, st1)) => parse_items::<TT, T>(n as nat, st1),
        }
    }

    open spec fn fits(&self) -> bool {
        &&& self@.len() <= u32::MAX
        &&& forall|i: int| 0 <= i < self@.len() ==> #[trigger] self@[i].fits()
    }

    open spec fn faithful(tt: &TT) -> bool {
        T::faithful(tt)
    }

    open spec fn leads_with_marker() -> bool {
        true
    }

    open spec fn readable() -> bool {
        false
    }

    fn write(&self, tt: &TT, wr: &mut Vec<u8>) -> (r: Result<(), Error>) {
        write_array_len(wr, self.len() as u32);
        let mut i: usize = 0;
        while i < self.len()
            invariant
                i <= self@.len(),
                forall|j: int| 0 <= j < self@.len() ==> #[trigger] self@[j].writable(tt),
                wr@ == old(wr)@ + array_len_bytes(self@.len() as u32) + items_wire(self@.take(i as int), tt),
            decreases self@.len() - i,
        {
            self[i].write(tt, wr)?;
            proof {
                assert(self@.take(i + 1).drop_last() =~= self@.take(i as int));
            }
            i = i + 1;
        }
        assert(self@.take(i as int) =~= self@);
        Ok(())
    }

    /// Never called: a borrowed slice has nothing to borrow from.
    fn read(rd: &mut Reader) -> (r: Result<Self, Error>) {
        Err(Error::IO)
    }

    proof fn lemma_marker_put_back(b: u8, rest: Seq<u8>) {
        assert((seq![b] + rest).drop_first() =~= rest);
    }

    proof fn lemma_read_of_write(&self, tt: &TT, rest: Seq<u8>) {
        let items = self@;
        let n = items.len() as u32;
        assert forall|i: int| 0 <= i < items.len() implies #[trigger] items[i].writable(tt) by {
            items[i].lemma_read_of_write(tt, rest);
        }
        assert(self.wire(tt) + rest =~= array_len_bytes(n) + (items_wire(items, tt) + rest));
        lemma_read_array_len(n, items_wire(items, tt) + rest);
        lemma_parse_items_wire::<TT, T>(items, tt, rest);
        assert(deep_views(items) =~= self.deep_view());
        assert(self.wire(tt)[0] == (array_len_bytes(n) + (items_wire(items, tt) + rest))[0]);
    }
}

/// Writes `t` under the tables `tt` to `wr`.
pub fn write<TT, T: Factual<TT>>(t: &T, tt: &TT, wr: &mut Vec<u8>) -> (r: Result<(), Error>)
    requires
        t.writable(tt),
    ensures
        r is Ok,
        final(wr)@ == old(wr)@ + t.wire(tt),
{
    t.write(tt, wr)
}

/// The law of the encoding: under tables that lay a struct out as it is
/// read, reading what `write` wrote gives the value back, and leaves the
/// reader right after it.
pub proof fn law_read_of_write<TT, T: Factual<TT>>(t: &T, tt: &TT, rest: Seq<u8>)
    requires
        T::faithful(tt),
        t.fits(),
    ensures
        t.writable(tt),
        T::parse((None, t.wire(tt) + rest)) == Ok::<(<T as DeepView>::V, ReadState), Failure>(
            (t.deep_view(), (None, rest)),
        ),
{
    t.lemma_read_of_write(tt, rest);
}

/// The pieces one after the other.
pub open spec fn concat(pieces: Seq<Seq<u8>>) -> Seq<u8>
    decreases pieces.len(),
{
    if pieces.len() == 0 {
        Seq::empty()
    } else {
        concat(pieces.drop_last()) + pieces.last()
    }
}

/// The encoding of a cookie's slots is its slots' encodings one after the other.
proof fn lemma_cookie_slots_concat(c: &sample::Cookie, slots: Seq<Option<u32>>, tt: &TranslationTables)
    ensures
        cookie_slots_wire(c, slots, tt) == concat(
            Seq::new(slots.len(), |i: int| cookie_slot_wire(c, slots[i], tt)),
        ),
    decreases slots.len(),
{
    let pieces = Seq::new(slots.len(), |i: int| cookie_slot_wire(c, slots[i], tt));
    if slots.len() > 0 {
        let init = slots.drop_last();
        lemma_cookie_slots_concat(c, init, tt);
        assert(pieces.drop_last() =~= Seq::new(init.len(), |i: int| cookie_slot_wire(c, init[i], tt)));
    } else {
        assert(pieces =~= Seq::<Seq<u8>>::empty());
    }
}

/// The encoding of an emoji's slots is its slots' encodings one after the other.
proof fn lemma_emoji_slots_concat(e: &sample::Emoji, slots: Seq<Option<u32>>, tt: &TranslationTables)
    ensures
        emoji_slots_wire(e, slots, tt) == concat(
            Seq::new(slots.len(), |i: int| emoji_slot_wire(e, slots[i], tt)),
        ),
    decreases slots.len(),
{
    let pieces = Seq::new(slots.len(), |i: int| emoji_slot_wire(e, slots[i], tt));
    if slots.len() > 0 {
        let init = slots.drop_last();
        lemma_emoji_slots_concat(e, init, tt);
        assert(pieces.drop_last() =~= Seq::new(init.len(), |i: int| emoji_slot_wire(e, init[i], tt)));
    } else {
        assert(pieces =~= Seq::<Seq<u8>>::empty());
    }
}

/// The law of a cookie's layout, for every table: its encoding is an array
/// header that announces one item per slot of the table, then one piece per
/// slot, in the table's order. A slot that names no field is nil; a slot that
/// names field 0, 1 or 2 reads back as the key, the value or the comment.
pub proof fn law_cookie_layout(c: &sample::Cookie, tt: &TranslationTables) -> (pieces: Seq<Seq<u8>>)
    requires
        c.writable(tt),
        c.fits(),
        tt.sample__Cookie@.len() <= u32::MAX,
    ensures
        pieces.len() == tt.sample__Cookie@.len(),
        c.wire(tt) == array_len_bytes(tt.sample__Cookie@.len() as u32) + concat(pieces),
        forall|rest: Seq<u8>| #[trigger] read_array_len_spec((None, c.wire(tt) + rest))
            == Ok::<(usize, ReadState), Failure>(
                (tt.sample__Cookie@.len() as usize, (None, concat(pieces) + rest)),
            ),
        forall|i: int| 0 <= i < pieces.len() && tt.sample__Cookie@[i] is None
            ==> #[trigger] pieces[i] == seq![0xc0u8],
        forall|i: int, rest: Seq<u8>| 0 <= i < pieces.len() && tt.sample__Cookie@[i] == Some(0u32)
            ==> #[trigger] <String as Factual<TranslationTables>>::parse((None, pieces[i] + rest))
                == Ok::<(Seq<char>, ReadState), Failure>((c.key@, (None, rest))),
        forall|i: int, rest: Seq<u8>| 0 <= i < pieces.len() && tt.sample__Cookie@[i] == Some(1u32)
            ==> #[trigger] <String as Factual<TranslationTables>>::parse((None, pieces[i] + rest))
                == Ok::<(Seq<char>, ReadState), Failure>((c.value@, (None, rest))),
        forall|i: int, rest: Seq<u8>| 0 <= i < pieces.len() && tt.sample__Cookie@[i] == Some(2u32)
            ==> #[trigger] <Option<String> as Factual<TranslationTables>>::parse((None, pieces[i] + rest))
                == Ok::<(Option<Seq<char>>, ReadState), Failure>((c.comment.deep_view(), (None, rest))),
{
    let slots = tt.sample__Cookie@;
    let pieces = Seq::new(slots.len(), |i: int| cookie_slot_wire(c, slots[i], tt));
    lemma_cookie_slots_concat(c, slots, tt);
    assert forall|rest: Seq<u8>| #[trigger] read_array_len_spec((None, c.wire(tt) + rest))
        == Ok::<(usize, ReadState), Failure>((slots.len() as usize, (None, concat(pieces) + rest))) by {
        assert(c.wire(tt) + rest =~= array_len_bytes(slots.len() as u32) + (concat(pieces) + rest));
        lemma_read_array_len(slots.len() as u32, concat(pieces) + rest);
    }
    assert forall|i: int, rest: Seq<u8>| 0 <= i < pieces.len() && slots[i] == Some(0u32)
        implies #[trigger] <String as Factual<TranslationTables>>::parse((None, pieces[i] + rest))
            == Ok::<(Seq<char>, ReadState), Failure>((c.key@, (None, rest))) by {
        Factual::<TranslationTables>::lemma_read_of_write(&c.key, tt, rest);
    }
    assert forall|i: int, rest: Seq<u8>| 0 <= i < pieces.len() && slots[i] == Some(1u32)
        implies #[trigger] <String as Factual<TranslationTables>>::parse((None, pieces[i] + rest))
            == Ok::<(Seq<char>, ReadState), Failure>((c.value@, (None, rest))) by {
        Factual::<TranslationTables>::lemma_read_of_write(&c.value, tt, rest);
    }
    assert forall|i: int, rest: Seq<u8>| 0 <= i < pieces.len() && slots[i] == Some(2u32)
        implies #[trigger] <Option<String> as Factual<TranslationTables>>::parse((None, pieces[i] + rest))
            == Ok::<(Option<Seq<char>>, ReadState), Failure>((c.comment.deep_view(), (None, rest))) by {
        Factual::<TranslationTables>::lemma_read_of_write(&c.comment, tt, rest);
    }
    pieces
}

/// The law of an emoji's layout, for every table: its encoding is an array
/// header that announces one item per slot of the table, then one piece per
/// slot, in the table's order. A slot that names no field is nil; a slot that
/// names field 0 or 1 reads back as the shortcode or the picture address.
pub proof fn law_emoji_layout(e: &sample::Emoji, tt: &TranslationTables) -> (pieces: Seq<Seq<u8>>)
    requires
        e.writable(tt),
        e.fits(),
        tt.sample__Emoji@.len() <= u32::MAX,
    ensures
        pieces.len() == tt.sample__Emoji@.len(),
        e.wire(tt) == array_len_bytes(tt.sample__Emoji@.len() as u32) + concat(pieces),
        forall|rest: Seq<u8>| #[trigger] read_array_len_spec((None, e.wire(tt) + rest))
            == Ok::<(usize, ReadState), Failure>(
                (tt.sample__Emoji@.len() as usize, (None, concat(pieces) + rest)),
            ),
        forall|i: int| 0 <= i < pieces.len() && tt.sample__Emoji@[i] is None
            ==> #[trigger] pieces[i] == seq![0xc0u8],
        forall|i: int, rest: Seq<u8>| 0 <= i < pieces.len() && tt.sample__Emoji@[i] == Some(0u32)
            ==> #[trigger] <String as Factual<TranslationTables>>::parse((None, pieces[i] + rest))
                == Ok::<(Seq<char>, ReadState), Failure>((e.shortcode@, (None, rest))),
        forall|i: int, rest: Seq<u8>| 0 <= i < pieces.len() && tt.sample__Emoji@[i] == Some(1u32)
            ==> #[trigger] <String as Factual<TranslationTables>>::parse((None, pieces[i] + rest))
                == Ok::<(Seq<char>, ReadState), Failure>((e.image_url@, (None, rest))),
{
    let slots = tt.sample__Emoji@;
    let pieces = Seq::new(slots.len(), |i: int| emoji_slot_wire(e, slots[i], tt));
    lemma_emoji_slots_concat(e, slots, tt);
    assert forall|rest: Seq<u8>| #[trigger] read_array_len_spec((None, e.wire(tt) + rest))
        == Ok::<(usize, ReadState), Failure>((slots.len() as usize, (None, concat(pieces) + rest))) by {
        assert(e.wire(tt) + rest =~= array_len_bytes(slots.len() as u32) + (concat(pieces) + rest));
        lemma_read_array_len(slots.len() as u32, concat(pieces) + rest);
    }
    assert forall|i: int, rest: Seq<u8>| 0 <= i < pieces.len() && slots[i] == Some(0u32)
        implies #[trigger] <String as Factual<TranslationTables>>::parse((None, pieces[i] + rest))
            == Ok::<(Seq<char>, ReadState), Failure>((e.shortcode@, (None, rest))) by {
        Factual::<TranslationTables>::lemma_read_of_write(&e.shortcode, tt, rest);
    }
    assert forall|i: int, rest: Seq<u8>| 0 <= i < pieces.len() && slots[i] == Some(1u32)
        implies #[trigger] <String as Factual<TranslationTables>>::parse((None, pieces[i] + rest))
            == Ok::<(Seq<char>, ReadState), Failure>((e.image_url@, (None, rest))) by {
        Factual::<TranslationTables>::lemma_read_of_write(&e.image_url, tt, rest);
    }
    pieces
}

} // verus!
