//! Framing of the requests sent to the base.
//!
//! A request is one 33-byte output report: a zero report number, the `0xff`
//! marker, the length of what follows up to the checksum (command, message
//! number and data), the command, the message number, the data, and a checksum
//! byte that is the sum of all earlier bytes modulo 256. The rest is zero.
use vstd::prelude::*;
use hidapi::HidError;

verus! {

/// Size in bytes of one framed request.
pub const REPORT_LEN: usize = 33;

/// The most data that one request can carry.
pub const MAX_DATA_LEN: usize = 27;

/// Sum of the bytes of `s`, without wrapping.
pub open spec fn byte_sum(s: Seq<u8>) -> nat
    decreases s.len(),
{
    if s.len() == 0 {
        0
    } else {
        byte_sum(s.drop_last()) + s.last() as nat
    }
}

/// The checksum of `s`: its byte sum modulo 256.
pub open spec fn checksum(s: Seq<u8>) -> u8 {
    (byte_sum(s) % 256) as u8
}

/// Everything of a request before its checksum.
pub open spec fn frame_body(command: u8, id: u8, data: Seq<u8>) -> Seq<u8> {
    seq![0u8, 0xffu8, (data.len() + 2) as u8, command, id] + data
}

/// The full 33-byte request for `command` with message number `id` and `data`.
pub open spec fn encode_message(command: u8, id: u8, data: Seq<u8>) -> Seq<u8> {
    let body = frame_body(command, id, data);
    body.push(checksum(body)) + Seq::new((REPORT_LEN - 1 - body.len()) as nat, |i: int| 0u8)
}

/// The message number that follows `n`; it wraps from 255 to 0.
pub open spec fn next_number(n: u8) -> u8 {
    ((n + 1) % 256) as u8
}

/// The message number `k` requests after the one numbered `start`.
pub open spec fn number_after(start: u8, k: nat) -> u8
    decreases k,
{
    if k == 0 {
        start
    } else {
        next_number(number_after(start, (k - 1) as nat))
    }
}

/// Message numbers count up modulo 256: `k` requests after `start` comes
/// number `(start + k) mod 256`.
pub proof fn lemma_number_after(start: u8, k: nat)
    ensures
        number_after(start, k) == (start + k) % 256,
    decreases k,
{
    if k > 0 {
        lemma_number_after(start, (k - 1) as nat);
        vstd::arithmetic::div_mod::lemma_add_mod_noop((start + k - 1) as int, 1, 256);
    }
}

/// No two of 256 consecutive requests share a message number, so their
/// answers land in different reply slots.
pub proof fn lemma_numbers_distinct(start: u8, i: nat, j: nat)
    requires
        i < j < i + 256,
    ensures
        number_after(start, i) != number_after(start, j),
{
    lemma_number_after(start, i);
    lemma_number_after(start, j);
    let a = (start + i) as int;
    let b = (start + j) as int;
    vstd::arithmetic::div_mod::lemma_fundamental_div_mod(a, 256);
    vstd::arithmetic::div_mod::lemma_fundamental_div_mod(b, 256);
    assert(a % 256 != b % 256) by (nonlinear_arith)
        requires
            a < b < a + 256,
            a == 256 * (a / 256) + a % 256,
            b == 256 * (b / 256) + b % 256,
            0 <= a % 256 < 256,
            0 <= b % 256 < 256,
    {
    }
}

/// What `byte_sum` is: the empty sum is 0, one byte sums to itself, and the
/// sum of two joined runs is the sum of their sums.
pub proof fn lemma_byte_sum_additive(s: Seq<u8>, t: Seq<u8>, x: u8)
    ensures
        byte_sum(Seq::<u8>::empty()) == 0,
        byte_sum(seq![x]) == x,
        byte_sum(s + t) == byte_sum(s) + byte_sum(t),
    decreases t.len(),
{
    assert(seq![x].drop_last() =~= Seq::<u8>::empty());
    assert(byte_sum(Seq::<u8>::empty()) == 0);
    assert(seq![x].last() == x);
    assert(byte_sum(seq![x]) == byte_sum(seq![x].drop_last()) + seq![x].last() as nat);
    if t.len() == 0 {
        assert(s + t =~= s);
    } else {
        lemma_byte_sum_additive(s, t.drop_last(), x);
        assert((s + t).drop_last() =~= s + t.drop_last());
        assert((s + t).last() == t.last());
        assert(byte_sum(s + t) == byte_sum((s + t).drop_last()) + (s + t).last() as nat);
        assert(byte_sum(t) == byte_sum(t.drop_last()) + t.last() as nat);
    }
}

/// The checksum of a frame counts every byte before it, the data included:
/// for any frame of data at most 27 bytes, the checksum byte is the sum of
/// bytes 0 to 4 plus the sum of the data, modulo 256, and the frame has the
/// layout: marker, length, command, number, the data unchanged, the checksum
/// byte equal to the sum of all bytes before it modulo 256, then zeros.
pub proof fn lemma_frame_layout(command: u8, id: u8, data: Seq<u8>)
    requires
        data.len() <= MAX_DATA_LEN,
    ensures
        ({
            let m = encode_message(command, id, data);
            let n = data.len() as int;
            &&& m.len() == REPORT_LEN
            &&& m[0] == 0 && m[1] == 0xff && m[2] == n + 2 && m[3] == command && m[4] == id
            &&& forall|k: int| 0 <= k < n ==> #[trigger] m[5 + k] == data[k]
            &&& m[5 + n] == (byte_sum(m.take(5 + n)) % 256) as u8
            &&& m[5 + n] == ((0xff + n + 2 + command + id + byte_sum(data)) % 256) as u8
            &&& forall|k: int| 5 + n < k < REPORT_LEN ==> #[trigger] m[k] == 0
        }),
{
    let m = encode_message(command, id, data);
    let n = data.len() as int;
    let body = frame_body(command, id, data);
    let head = seq![0u8, 0xffu8, (data.len() + 2) as u8, command, id];
    assert(m.take(5 + n) =~= body);
    assert(body =~= head + data);
    lemma_byte_sum_additive(head, data, 0);
    let h4 = seq![0u8, 0xffu8, (data.len() + 2) as u8, command];
    let h3 = seq![0u8, 0xffu8, (data.len() + 2) as u8];
    let h2 = seq![0u8, 0xffu8];
    let h1 = seq![0u8];
    assert(head.drop_last() =~= h4);
    assert(h4.drop_last() =~= h3);
    assert(h3.drop_last() =~= h2);
    assert(h2.drop_last() =~= h1);
    assert(h1.drop_last() =~= Seq::<u8>::empty());
    assert(byte_sum(h1) == 0);
    assert(byte_sum(h2) == 0xff);
    assert(byte_sum(h3) == 0xff + data.len() + 2);
    assert(byte_sum(h4) == 0xff + data.len() + 2 + command);
    assert(byte_sum(head) == 0xff + data.len() + 2 + command + id);
    assert forall|k: int| 0 <= k < n implies #[trigger] m[5 + k] == data[k] by {
        assert(m[5 + k] == body[5 + k]);
    }
}

/// Numbers and frames the requests sent to the base.
pub struct MessageBuilder {
    message_number: u8,
}

impl View for MessageBuilder {
    type V = u8;

    /// The number of the last request framed (0 before the first).
    closed spec fn view(&self) -> u8 {
        self.message_number
    }
}

proof fn lemma_byte_sum_step(s: Seq<u8>, i: int)
    requires
        0 <= i < s.len(),
    ensures
        byte_sum(s.take(i + 1)) == byte_sum(s.take(i)) + s[i],
{
    assert(s.take(i + 1).drop_last() =~= s.take(i));
}

proof fn lemma_wrapping_checksum(c: u8, sum: nat, x: u8)
    requires
        c == (sum % 256) as u8,
    ensures
        vstd::wrapping::u8_specs::wrapping_add(c, x) == ((sum + x) % 256) as u8,
{
    vstd::arithmetic::div_mod::lemma_add_mod_noop(sum as int, x as int, 256);
}

impl MessageBuilder {
    /// A builder whose first request will carry message number 1.
    pub fn new() -> (r: Self)
        ensures
            r@ == 0,
    {
        MessageBuilder { message_number: 0 }
    }

    /// The number of the last request framed.
    pub fn message_number(&self) -> (r: u8)
        ensures
            r == self@,
    {
        self.message_number
    }

    /// Advances to the next message number, wrapping after 255, and returns it.
    pub fn next_message_num(&mut self) -> (id: u8)
        ensures
            id == next_number(old(self)@),
            id == (old(self)@ + 1) % 256,
            final(self)@ == id,
    {
        self.message_number = self.message_number.wrapping_add(1);
        self.message_number
    }

    /// Frames a request: takes the next message number and returns it with
    /// the 33-byte report for `command` and `data`.
    pub fn construct_message(&mut self, command: u8, data: &[u8]) -> (r: Result<(u8, [u8; 33]), HidError>)
        requires
            data@.len() <= MAX_DATA_LEN,
        ensures
            final(self)@ == next_number(old(self)@),
            final(self)@ == (old(self)@ + 1) % 256,
            r matches Ok((id, message)) && id == final(self)@
                && message@ == encode_message(command, id, data@),
            r matches Ok((id, message)) && message@.len() == REPORT_LEN && message@[0] == 0
                && message@[1] == 0xff && message@[2] == data@.len() + 2 && message@[3] == command
                && message@[4] == id,
            r matches Ok((_, message)) ==> forall|k: int|
                0 <= k < data@.len() ==> #[trigger] message@[5 + k] == data@[k],
            r matches Ok((_, message)) ==> message@[5 + data@.len() as int] == (byte_sum(
                message@.take(5 + data@.len() as int),
            ) % 256) as u8,
            r matches Ok((_, message)) ==> forall|k: int|
                5 + data@.len() < k < REPORT_LEN ==> #[trigger] message@[k] == 0,
    {
        let mut message = [0u8; 33];
        let id = self.next_message_num();
        let mut full_command: Vec<u8> = Vec::new();
        full_command.push(0u8);
        full_command.push(0xffu8);
        full_command.push((data.len() + 2) as u8);
        full_command.push(command);
        full_command.push(id);
        let ghost head = seq![0u8, 0xffu8, (data@.len() + 2) as u8, command, id];
        let mut j: usize = 0;
        while j < data.len()
            invariant
                j <= data@.len(),
                full_command@ == head + data@.take(j as int),
            decreases data@.len() - j,
        {
            full_command.push(data[j]);
            assert(data@.take(j + 1) =~= data@.take(j as int).push(data@[j as int]));
            j += 1;
        }
        let ghost body = frame_body(command, id, data@);
        assert(full_command@ =~= body) by {
            assert(data@.take(data@.len() as int) =~= data@);
        }
        assert(message@ =~= body.take(0) + Seq::new(33, |k: int| 0u8));
        let mut sum: u8 = 0;
        let mut i: usize = 0;
        while i < full_command.len()
            invariant
                i <= full_command@.len(),
                full_command@ == body,
                body.len() <= 32,
                message@ == body.take(i as int) + Seq::new((33 - i) as nat, |k: int| 0u8),
                sum == checksum(body.take(i as int)),
            decreases full_command@.len() - i,
        {
            let x = full_command[i];
            message[i] = x;
            proof {
                lemma_byte_sum_step(body, i as int);
                lemma_wrapping_checksum(sum, byte_sum(body.take(i as int)), x);
                assert(message@ =~= body.take(i + 1) + Seq::new((33 - (i + 1)) as nat, |k: int| 0u8));
            }
            sum = sum.wrapping_add(x);
            i += 1;
        }
        message[full_command.len()] = sum;
        proof {
            assert(body.take(body.len() as int) =~= body);
            assert(message@ =~= encode_message(command, id, data@));
            lemma_frame_layout(command, id, data@);
        }
        Ok((id, message))
    }
}

} // verus!
