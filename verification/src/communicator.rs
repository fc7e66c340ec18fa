//! Frames: the unit in which captured stream data travels.

use vstd::prelude::*;
use vstd::string::StringSliceAdditionalSpecFns;

verus! {

/// The frame size used when no other size is configured.
pub const DEFAULT_BUFFER_SIZE: usize = 8;

/// The number of bytes a frame can carry.
pub const DATA_BUFFER_SIZE: usize = DEFAULT_BUFFER_SIZE;

/// Which of the three standard streams a run of bytes belongs to.
#[derive(Debug, Clone, Copy, PartialEq, Eq, Structural)]
pub enum StreamKind {
    Stdin,
    Stdout,
    Stderr,
}

impl StreamKind {
    /// The byte that stands for this kind at the head of a datagram.
    pub open spec fn tag_spec(self) -> u8 {
        match self {
            StreamKind::Stdin => 0,
            StreamKind::Stdout => 1,
            StreamKind::Stderr => 2,
        }
    }

    /// The byte that stands for this kind at the head of a datagram.
    #[verifier::when_used_as_spec(tag_spec)]
    pub fn tag(self) -> (t: u8)
        ensures
            t == self.tag_spec(),
    {
        match self {
            StreamKind::Stdin => 0,
            StreamKind::Stdout => 1,
            StreamKind::Stderr => 2,
        }
    }
}

/// A run of bytes of one stream, as contracts see it: what a frame
/// carries, and what a datagram carries.
#[verifier::ext_equal]
pub struct Tagged {
    pub kind: StreamKind,
    pub bytes: Seq<u8>,
}

/// One bounded read from one stream: its kind and up to
/// `DATA_BUFFER_SIZE` bytes, held in place.
#[derive(Debug, Clone, Copy)]
pub struct Message {
    kind: StreamKind,
    data: [u8; DATA_BUFFER_SIZE],
    len: usize,
}

impl View for Message {
    type V = Tagged;

    closed spec fn view(&self) -> Tagged {
        Tagged { kind: self.kind, bytes: self.data@.subrange(0, self.len as int) }
    }
}

impl Message {
    /// The bytes carried are the first `len` of `data`.
    #[verifier::type_invariant]
    spec fn bounded(self) -> bool {
        self.len <= DATA_BUFFER_SIZE
    }

    /// A frame of `kind` that carries a copy of `data_chunk`.
    pub fn new(kind: StreamKind, data_chunk: &[u8]) -> (msg: Self)
        requires
            data_chunk@.len() <= DATA_BUFFER_SIZE,
        ensures
            msg@.kind == kind,
            msg@.bytes == data_chunk@,
    {
        let len: usize = data_chunk.len();
        let mut data = [0u8; DATA_BUFFER_SIZE];
        let mut i: usize = 0;
        while i < len
            invariant
                len == data_chunk@.len(),
                len <= DATA_BUFFER_SIZE,
                i <= len,
                forall|j: int| 0 <= j < i ==> data@[j] == data_chunk@[j],
            decreases len - i,
        {
            data[i] = data_chunk[i];
            i += 1;
        }
        Self { kind, data, len }
    }

    /// The stream this frame was read from.
    pub fn kind(&self) -> (kind: StreamKind)
        ensures
            kind == self@.kind,
    {
        self.kind
    }

    /// The bytes this frame carries.
    pub fn get_data(&self) -> (data: &[u8])
        ensures
            data@ == self@.bytes,
            data@.len() <= DATA_BUFFER_SIZE,
    {
        proof {
            use_type_invariant(self);
        }
        vstd::slice::slice_subrange(self.data.as_slice(), 0, self.len)
    }
}

impl PartialEq for Message {
    fn eq(&self, other: &Self) -> (equal: bool) {
        proof {
            use_type_invariant(self);
            use_type_invariant(other);
        }
        if self.kind != other.kind || self.len != other.len {
            assert(self@.bytes.len() != other@.bytes.len() || self@.kind != other@.kind);
            return false;
        }
        let mut i: usize = 0;
        while i < self.len
            invariant
                i <= self.len,
                self.len == other.len,
                self.len <= DATA_BUFFER_SIZE,
                forall|j: int| 0 <= j < i ==> self.data@[j] == other.data@[j],
            decreases self.len - i,
        {
            if self.data[i] != other.data[i] {
                assert(self@.bytes[i as int] != other@.bytes[i as int]);
                return false;
            }
            i += 1;
        }
        assert(self@.bytes =~= other@.bytes);
        true
    }
}

impl Eq for Message {

}

impl vstd::std_specs::cmp::PartialEqSpecImpl for Message {
    open spec fn obeys_eq_spec() -> bool {
        true
    }

    open spec fn eq_spec(&self, other: &Self) -> bool {
        self@ == other@
    }
}

/// The bytes of an optional textual setting; an absent setting reads as empty.
pub open spec fn setting_bytes(setting: Option<&str>) -> Seq<u8> {
    match setting {
        Some(text) => text.spec_bytes(),
        None => Seq::empty(),
    }
}

/// Whether `b` is an ASCII decimal digit.
pub open spec fn is_digit(b: u8) -> bool {
    0x30 <= b <= 0x39
}

/// Whether every byte of `text` is a decimal digit.
pub open spec fn all_digits(text: Seq<u8>) -> bool {
    forall|i: int| 0 <= i < text.len() ==> is_digit(#[trigger] text[i])
}

/// The number that a run of decimal digits writes, most significant digit first.
pub open spec fn decimal_value(digits: Seq<u8>) -> nat
    decreases digits.len(),
{
    if digits.len() == 0 {
        0
    } else {
        (decimal_value(digits.drop_last()) * 10 + (digits.last() - 0x30)) as nat
    }
}

/// The frame size that a setting asks for: the number it writes, or the
/// default where it is empty or holds anything but digits.
pub open spec fn configured_size(text: Seq<u8>) -> nat {
    if text.len() == 0 || !all_digits(text) {
        DEFAULT_BUFFER_SIZE as nat
    } else {
        decimal_value(text)
    }
}

/// A run of digits writes a number no smaller than any of its prefixes does.
pub proof fn lemma_decimal_value_prefix(digits: Seq<u8>, n: int)
    requires
        all_digits(digits),
        0 <= n <= digits.len(),
    ensures
        decimal_value(digits.take(n)) <= decimal_value(digits),
    decreases digits.len(),
{
    if n == digits.len() {
        assert(digits.take(n) =~= digits);
    } else {
        assert(digits.drop_last().take(n) =~= digits.take(n));
        lemma_decimal_value_prefix(digits.drop_last(), n);
        assert(is_digit(digits.last()));
    }
}

/// Whether every byte of `text` is a decimal digit.
fn only_digits(text: &[u8]) -> (yes: bool)
    ensures
        yes == all_digits(text@),
{
    let mut i: usize = 0;
    while i < text.len()
        invariant
            i <= text.len(),
            forall|j: int| 0 <= j < i ==> is_digit(#[trigger] text@[j]),
        decreases text.len() - i,
    {
        let ch: u8 = text[i];
        if ch < 0x30 || ch > 0x39 {
            assert(!is_digit(text@[i as int]));
            return false;
        }
        i += 1;
    }
    true
}

/// The frame size that `setting` asks for.
pub fn get_buffer_size(setting: Option<&str>) -> (size: usize)
    requires
        configured_size(setting_bytes(setting)) <= usize::MAX,
    ensures
        size == configured_size(setting_bytes(setting)),
{
    let text: &[u8] = match setting {
        Some(text) => text.as_bytes(),
        None => { return DEFAULT_BUFFER_SIZE; },
    };
    if text.len() == 0 || !only_digits(text) {
        return DEFAULT_BUFFER_SIZE;
    }
    let mut r: usize = 0;
    let mut i: usize = 0;
    while i < text.len()
        invariant
            i <= text.len(),
            all_digits(text@),
            decimal_value(text@) <= usize::MAX,
            r == decimal_value(text@.take(i as int)),
        decreases text.len() - i,
    {
        let ch: u8 = text[i];
        proof {
            let next = text@.take(i + 1);
            assert(next.drop_last() =~= text@.take(i as int));
            assert(next.last() == ch);
            assert(is_digit(text@[i as int]));
            lemma_decimal_value_prefix(text@, i + 1);
        }
        r = r * 10;
        r = r + (ch - 0x30) as usize;
        i += 1;
    }
    assert(text@.take(i as int) =~= text@);
    r
}

/// The frame size that `setting` asks for, or `None` where that number is
/// too large for a `usize`.
pub fn checked_buffer_size(setting: Option<&str>) -> (size: Option<usize>)
    ensures
        size == if configured_size(setting_bytes(setting)) <= usize::MAX {
            Some(configured_size(setting_bytes(setting)) as usize)
        } else {
            None
        },
{
    let text: &[u8] = match setting {
        Some(text) => text.as_bytes(),
        None => { return Some(DEFAULT_BUFFER_SIZE); },
    };
    if text.len() == 0 || !only_digits(text) {
        return Some(DEFAULT_BUFFER_SIZE);
    }
    let mut r: usize = 0;
    let mut i: usize = 0;
    while i < text.len()
        invariant
            i <= text.len(),
            text@ == setting_bytes(setting),
            text@.len() > 0,
            all_digits(text@),
            r == decimal_value(text@.take(i as int)),
        decreases text.len() - i,
    {
        let ch: u8 = text[i];
        proof {
            let next = text@.take(i + 1);
            assert(next.drop_last() =~= text@.take(i as int));
            assert(next.last() == ch);
            assert(is_digit(text@[i as int]));
            assert(decimal_value(next) == r * 10 + (ch - 0x30));
            lemma_decimal_value_prefix(text@, i + 1);
        }
        let digit: usize = (ch - 0x30) as usize;
        r = match r.checked_mul(10) {
            Some(tens) => match tens.checked_add(digit) {
                Some(sum) => sum,
                None => { return None; },
            },
            None => { return None; },
        };
        i += 1;
    }
    assert(text@.take(i as int) =~= text@);
    Some(r)
}

} // verus!
