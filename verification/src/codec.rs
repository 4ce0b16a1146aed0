use vstd::prelude::*;

use crate::errors::Error;

verus! {

/// An ASCII decimal digit.
pub open spec fn is_digit(b: u8) -> bool {
    48 <= b <= 57
}

/// Every byte of the sequence is an ASCII decimal digit.
pub open spec fn all_digits(s: Seq<u8>) -> bool {
    forall|i: int| 0 <= i < s.len() ==> is_digit(#[trigger] s[i])
}

/// The numeric value of a sequence of ASCII decimal digits, most
/// significant digit first.
pub open spec fn digits_value(s: Seq<u8>) -> int
    decreases s.len(),
{
    if s.len() == 0 {
        0
    } else {
        digits_value(s.drop_last()) * 10 + (s.last() - 48)
    }
}

/// The byte form of the fixed per-segment channel-name prefix: one channel
/// per segment id, named `traffic/{id}`.
pub open spec fn channel_prefix() -> Seq<u8> {
    seq![116u8, 114u8, 97u8, 102u8, 102u8, 105u8, 99u8, 47u8]
}

/// The canonical decimal rendering of a number, without leading zeros.
pub open spec fn decimal_repr(v: nat) -> Seq<u8>
    decreases v,
{
    if v < 10 {
        seq![(48 + v) as u8]
    } else {
        decimal_repr(v / 10).push((48 + v % 10) as u8)
    }
}

/// The segment id a channel name denotes, within an id space of size `n`:
/// the name must be the fixed prefix followed by at least one decimal
/// digit, and the digits must denote an id inside `0..n`.
pub open spec fn channel_id_spec(topic: Seq<u8>, n: int) -> Option<int> {
    if topic.len() > 8 && topic.take(8) == channel_prefix() && all_digits(topic.skip(8))
        && digits_value(topic.skip(8)) < n {
        Some(digits_value(topic.skip(8)))
    } else {
        None
    }
}

/// What decoding an inbound message yields: the segment id derived from the
/// channel name, and the reported average speed from the payload's first
/// byte. Any shape violation makes the whole message undecodable.
pub open spec fn decode_spec(topic: Seq<u8>, payload: Seq<u8>, n: int) -> Option<(int, u8)> {
    match channel_id_spec(topic, n) {
        Some(id) => if payload.len() >= 1 {
            Some((id, payload[0]))
        } else {
            None
        },
        None => None,
    }
}

/// The value of a digit string is never negative.
pub proof fn lemma_digits_value_nonneg(s: Seq<u8>)
    requires
        all_digits(s),
    ensures
        digits_value(s) >= 0,
    decreases s.len(),
{
    if s.len() > 0 {
        assert(all_digits(s.drop_last()));
        lemma_digits_value_nonneg(s.drop_last());
    }
}

/// Reading more digits never decreases the value: the value of a prefix is
/// a lower bound on the value of the whole string.
pub proof fn lemma_digits_value_prefix_le(s: Seq<u8>, i: int)
    requires
        all_digits(s),
        0 <= i <= s.len(),
    ensures
        digits_value(s.take(i)) <= digits_value(s),
    decreases s.len(),
{
    if i == s.len() {
        assert(s.take(i) =~= s);
    } else {
        assert(all_digits(s.drop_last()));
        assert(s.drop_last().take(i) =~= s.take(i));
        lemma_digits_value_prefix_le(s.drop_last(), i);
        lemma_digits_value_nonneg(s.drop_last());
    }
}

/// Parse an unsigned decimal number from the bytes at and after `start`.
/// Yields the digits' value exactly when that suffix is a non-empty
/// all-digit string whose value fits the result type.
pub fn parse_decimal_from(s: &[u8], start: usize) -> (r: Option<usize>)
    requires
        start <= s@.len(),
    ensures
        r is Some <==> s@.skip(start as int).len() > 0 && all_digits(s@.skip(start as int))
            && digits_value(s@.skip(start as int)) <= usize::MAX,
        r matches Some(v) ==> v == digits_value(s@.skip(start as int)),
{
    let ghost d = s@.skip(start as int);
    if s.len() == start {
        return None;
    }
    let mut acc: usize = 0;
    let mut i: usize = start;
    while i < s.len()
        invariant
            d == s@.skip(start as int),
            start <= i <= s@.len(),
            start < s@.len(),
            all_digits(d.take(i - start)),
            acc == digits_value(d.take(i - start)),
        decreases s@.len() - i,
    {
        let b = s[i];
        proof {
            assert(d.take(i - start + 1).drop_last() =~= d.take(i - start));
            assert(d.take(i - start + 1).last() == d[i - start]);
            assert(d[i - start] == s@[i as int]);
        }
        if b < 48 || b > 57 {
            proof {
                assert(!is_digit(d[i - start]));
            }
            return None;
        }
        let shifted = match acc.checked_mul(10) {
            Some(x) => x,
            None => {
                proof {
                    assert(all_digits(d.take(i - start + 1)));
                    assert(digits_value(d.take(i - start + 1)) > usize::MAX);
                    if all_digits(d) {
                        lemma_digits_value_prefix_le(d, i - start + 1);
                    }
                }
                return None;
            },
        };
        let acc2 = match shifted.checked_add((b - 48) as usize) {
            Some(x) => x,
            None => {
                proof {
                    assert(all_digits(d.take(i - start + 1)));
                    assert(digits_value(d.take(i - start + 1)) > usize::MAX);
                    if all_digits(d) {
                        lemma_digits_value_prefix_le(d, i - start + 1);
                    }
                }
                return None;
            },
        };
        acc = acc2;
        i = i + 1;
    }
    proof {
        assert(d.take(s@.len() - start) =~= d);
    }
    Some(acc)
}

/// Parse an unsigned decimal number. Yields the digits' value exactly when
/// the input is a non-empty all-digit string whose value fits the result
/// type.
pub fn parse_decimal(s: &[u8]) -> (r: Option<usize>)
    ensures
        r is Some <==> s@.len() > 0 && all_digits(s@) && digits_value(s@) <= usize::MAX,
        r matches Some(v) ==> v == digits_value(s@),
{
    proof {
        assert(s@.skip(0) =~= s@);
    }
    parse_decimal_from(s, 0)
}

/// Derive a segment id from a channel name, for an id space of size `n`.
/// The name must read `traffic/{digits}` and the digits must denote an id
/// below `n`; anything else is rejected.
pub fn parse_channel_id(topic: &[u8], n: usize) -> (r: Option<usize>)
    ensures
        r is Some <==> channel_id_spec(topic@, n as int) is Some,
        r matches Some(id) ==> channel_id_spec(topic@, n as int) == Some(id as int),
{
    if topic.len() < 9 {
        return None;
    }
    if topic[0] != 116 || topic[1] != 114 || topic[2] != 97 || topic[3] != 102 || topic[4] != 102
        || topic[5] != 105 || topic[6] != 99 || topic[7] != 47 {
        proof {
            assert(topic@.take(8) != channel_prefix()) by {
                assert(channel_prefix()[0] == 116 && channel_prefix()[1] == 114
                    && channel_prefix()[2] == 97 && channel_prefix()[3] == 102
                    && channel_prefix()[4] == 102 && channel_prefix()[5] == 105
                    && channel_prefix()[6] == 99 && channel_prefix()[7] == 47);
            }
        }
        return None;
    }
    proof {
        assert(topic@.take(8) =~= channel_prefix());
    }
    match parse_decimal_from(topic, 8) {
        Some(v) => {
            if v < n {
                Some(v)
            } else {
                None
            }
        },
        None => None,
    }
}

/// Read the reported average speed from a message payload: its first byte,
/// an unsigned integer. An empty payload is undecodable.
pub fn decode_payload(payload: &[u8]) -> (r: Option<u8>)
    ensures
        r is Some <==> payload@.len() >= 1,
        r matches Some(v) ==> v == payload@[0],
{
    if payload.len() >= 1 {
        Some(payload[0])
    } else {
        None
    }
}

/// Decode one inbound telemetry message into (segment id, average speed),
/// for an id space of size `n`. A message whose channel name or payload is
/// malformed is reported as a decode error, exactly when `decode_spec`
/// yields nothing.
pub fn decode_message(topic: &[u8], payload: &[u8], n: usize) -> (r: Result<(usize, u8), Error>)
    ensures
        r is Ok <==> decode_spec(topic@, payload@, n as int) is Some,
        r matches Ok(p) ==> decode_spec(topic@, payload@, n as int) == Some((p.0 as int, p.1))
            && p.0 < n,
        r is Err ==> r == Err::<(usize, u8), Error>(Error::DecodeError),
{
    match parse_channel_id(topic, n) {
        Some(id) => match decode_payload(payload) {
            Some(speed) => Ok((id, speed)),
            None => Err(Error::DecodeError),
        },
        None => Err(Error::DecodeError),
    }
}

/// Parse the configured total sensor/segment count. Required at startup;
/// missing, non-numeric, or out-of-range values are a fatal configuration
/// error. The count is bounded by the record id type's range.
pub fn parse_sensor_count(s: &[u8]) -> (r: Result<usize, Error>)
    ensures
        r is Ok <==> s@.len() > 0 && all_digits(s@) && digits_value(s@) <= i32::MAX,
        r matches Ok(n) ==> n == digits_value(s@),
        r is Err ==> r == Err::<usize, Error>(Error::ConfigError),
{
    match parse_decimal(s) {
        Some(v) => {
            if v <= 0x7fff_ffff {
                Ok(v)
            } else {
                Err(Error::ConfigError)
            }
        },
        None => {
            proof {
                if s@.len() > 0 && all_digits(s@) && digits_value(s@) <= i32::MAX {
                    assert(digits_value(s@) <= usize::MAX);
                }
            }
            Err(Error::ConfigError)
        },
    }
}

/// Append the canonical decimal rendering of `v` to `out`.
fn push_decimal(v: u32, out: &mut Vec<u8>)
    ensures
        final(out)@ == old(out)@ + decimal_repr(v as nat),
    decreases v,
{
    if v < 10 {
        out.push(48 + v as u8);
        proof {
            assert(out@ =~= old(out)@ + decimal_repr(v as nat));
        }
    } else {
        proof {
            assert(v / 10 < v) by (nonlinear_arith)
                requires
                    v >= 10,
            ;
        }
        push_decimal(v / 10, out);
        assert(v % 10 < 10) by (nonlinear_arith);
        out.push(48 + (v % 10) as u8);
        proof {
            assert(out@ =~= old(out)@ + decimal_repr(v as nat));
        }
    }
}

/// The channel name for a segment id: the fixed prefix followed by the id
/// in canonical decimal form.
pub fn channel_name(id: u32) -> (r: Vec<u8>)
    ensures
        r@ == channel_prefix() + decimal_repr(id as nat),
{
    let mut out: Vec<u8> = Vec::new();
    out.push(116);
    out.push(114);
    out.push(97);
    out.push(102);
    out.push(102);
    out.push(105);
    out.push(99);
    out.push(47);
    proof {
        assert(out@ =~= channel_prefix());
    }
    push_decimal(id, &mut out);
    out
}

/// Wrap a reported average speed as a message payload: a single byte.
pub fn encode_payload(avg_speed: u8) -> (r: Vec<u8>)
    ensures
        r@ == seq![avg_speed],
{
    let mut out: Vec<u8> = Vec::new();
    out.push(avg_speed);
    proof {
        assert(out@ =~= seq![avg_speed]);
    }
    out
}

/// The reading a sensor reports for its id: a fixed synthetic profile in
/// sensor-reported speed units.
pub fn reading_for(unique_id: u8) -> (r: u8)
    ensures
        r == (unique_id as int) * 17 % 43 + 10,
{
    (((unique_id as u32) * 17) % 43 + 10) as u8
}

/// A canonical decimal rendering consists of digits and denotes the number
/// it was built from.
pub proof fn lemma_decimal_repr_value(v: nat)
    ensures
        all_digits(decimal_repr(v)),
        decimal_repr(v).len() > 0,
        digits_value(decimal_repr(v)) == v,
    decreases v,
{
    if v < 10 {
        assert(decimal_repr(v) =~= seq![(48 + v) as u8]);
        assert(decimal_repr(v).drop_last() =~= Seq::<u8>::empty());
        assert(digits_value(decimal_repr(v)) == digits_value(decimal_repr(v).drop_last()) * 10 + (
        decimal_repr(v).last() - 48));
        assert(digits_value(decimal_repr(v).drop_last()) == 0);
        assert(digits_value(decimal_repr(v)) == v);
    } else {
        assert(v / 10 < v) by (nonlinear_arith)
            requires
                v >= 10,
        ;
        lemma_decimal_repr_value(v / 10);
        let d = decimal_repr(v / 10).push((48 + v % 10) as u8);
        assert(d.drop_last() =~= decimal_repr(v / 10));
        assert forall|i: int| 0 <= i < d.len() implies is_digit(#[trigger] d[i]) by {
            if i < d.len() - 1 {
                assert(d[i] == decimal_repr(v / 10)[i]);
            }
        }
        assert(digits_value(d) == (v / 10) * 10 + v % 10);
        assert((v / 10) * 10 + v % 10 == v) by (nonlinear_arith);
    }
}

/// Publish/decode round trip: a message published on the canonical channel
/// for a segment id, with a one-byte speed payload, decodes back to exactly
/// that id and speed, for any id space that contains the id.
pub proof fn lemma_publish_decode_round_trip(id: u32, avg_speed: u8, n: int)
    requires
        id < n,
    ensures
        decode_spec(channel_prefix() + decimal_repr(id as nat), seq![avg_speed], n) == Some((
            id as int,
            avg_speed,
        )),
{
    let topic = channel_prefix() + decimal_repr(id as nat);
    lemma_decimal_repr_value(id as nat);
    assert(topic.take(8) =~= channel_prefix());
    assert(topic.skip(8) =~= decimal_repr(id as nat));
    assert(seq![avg_speed][0] == avg_speed);
}

} // verus!
