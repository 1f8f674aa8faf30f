use vstd::prelude::*;

use crate::errors::TickError;

verus! {

/// One candidate entry of the one-wire device directory, as the one-time
/// startup scan saw it: the entry's name, as bytes, and whether the entry
/// offers a readable `temperature` node.
pub struct DeviceNode {
    pub name: Vec<u8>,
    pub has_temperature: bool,
}

/// The name carries the DS18B20 family code prefix, the three bytes of
/// `28-`.
pub open spec fn has_family_prefix(name: Seq<u8>) -> bool {
    name.len() >= 3 && name[0] == 50u8 && name[1] == 56u8 && name[2] == 45u8
}

/// An entry the scan may select: the family prefix and a temperature node.
pub open spec fn selectable(node: DeviceNode) -> bool {
    has_family_prefix(node.name@) && node.has_temperature
}

/// ASCII whitespace as the sensor file pads its content with.
pub open spec fn is_space(b: u8) -> bool {
    b == 32u8 || b == 10u8 || b == 13u8 || b == 9u8
}

/// An ASCII decimal digit.
pub open spec fn is_digit(b: u8) -> bool {
    48 <= b <= 57
}

pub open spec fn all_digits(s: Seq<u8>) -> bool {
    forall|i: int| 0 <= i < s.len() ==> is_digit(#[trigger] s[i])
}

/// The value of a decimal digit string, most significant digit first.
pub open spec fn digits_value(s: Seq<u8>) -> int
    decreases s.len(),
{
    if s.len() == 0 {
        0
    } else {
        digits_value(s.drop_last()) * 10 + (s.last() - 48)
    }
}

/// The integer a sensor reading body denotes: an optional minus sign
/// followed by one or more decimal digits, and nothing else.
pub open spec fn parsed_milli(s: Seq<u8>) -> Option<int> {
    if s.len() > 0 && s[0] == 45u8 {
        if s.len() > 1 && all_digits(s.skip(1)) {
            Some(-digits_value(s.skip(1)))
        } else {
            None
        }
    } else {
        if s.len() > 0 && all_digits(s) {
            Some(digits_value(s))
        } else {
            None
        }
    }
}

/// The content with leading ASCII whitespace removed.
pub open spec fn trim_front(s: Seq<u8>) -> Seq<u8>
    decreases s.len(),
{
    if s.len() > 0 && is_space(s[0]) {
        trim_front(s.skip(1))
    } else {
        s
    }
}

/// The content with trailing ASCII whitespace removed.
pub open spec fn trim_back(s: Seq<u8>) -> Seq<u8>
    decreases s.len(),
{
    if s.len() > 0 && is_space(s.last()) {
        trim_back(s.drop_last())
    } else {
        s
    }
}

/// The content with whitespace removed on both sides.
pub open spec fn trimmed(s: Seq<u8>) -> Seq<u8> {
    trim_back(trim_front(s))
}

/// The temperature probe: the directory entry name that the startup scan
/// selected. Opening and reading the device file is the transport's
/// business; this handle only fixes which entry is read.
#[derive(Debug)]
pub struct Ds18b20 {
    name: Vec<u8>,
}

impl Ds18b20 {
    /// The selected entry's name.
    pub closed spec fn spec_name(&self) -> Seq<u8> {
        self.name@
    }

    /// The selected entry's name, for building the device file path.
    pub fn name(&self) -> (r: &Vec<u8>)
        ensures
            r@ == self.spec_name(),
    {
        &self.name
    }

    /// Select the first directory entry whose name carries the DS18B20
    /// family prefix `28-` and which offers a temperature node. Fails with
    /// an I/O error when no entry qualifies.
    #[verifier::loop_isolation(false)]
    pub fn new(entries: Vec<DeviceNode>) -> (r: Result<Ds18b20, TickError>)
        ensures
            match r {
                Ok(d) => exists|i: int|
                    0 <= i < entries@.len() && #[trigger] selectable(entries@[i])
                        && d.spec_name() == entries@[i].name@ && (forall|j: int|
                        0 <= j < i ==> !selectable(#[trigger] entries@[j])),
                Err(e) => e == TickError::IoError && (forall|i: int|
                    0 <= i < entries@.len() ==> !selectable(#[trigger] entries@[i])),
            },
    {
        let mut rest = entries;
        let mut i: usize = 0;
        while i < rest.len()
            invariant
                i <= rest@.len(),
                rest@ == entries@,
                forall|j: int| 0 <= j < i ==> !selectable(#[trigger] entries@[j]),
            decreases rest@.len() - i,
        {
            let node = &rest[i];
            let matches_prefix = node.name.len() >= 3 && node.name[0] == 50 && node.name[1] == 56
                && node.name[2] == 45;
            if matches_prefix && node.has_temperature {
                proof {
                    assert(selectable(entries@[i as int]));
                }
                let node = rest.remove(i);
                return Ok(Ds18b20 { name: node.name });
            }
            i += 1;
        }
        Err(TickError::IoError)
    }

    /// Parse the device file's content as an integer count of milli-degrees
    /// Celsius: an optional sign and decimal digits, with surrounding
    /// whitespace ignored. Fails with an I/O error when the trimmed content
    /// is not such an integer or its magnitude does not fit the result type.
    #[verifier::loop_isolation(false)]
    pub fn parse_temperature(content: &Vec<u8>) -> (r: Result<i64, TickError>)
        ensures
            match r {
                Ok(v) => parsed_milli(trimmed(content@)) == Some(v as int),
                Err(e) => e == TickError::IoError && (parsed_milli(trimmed(content@)) is None
                    || parsed_milli(trimmed(content@))->Some_0 > i64::MAX as int || parsed_milli(
                    trimmed(content@),
                )->Some_0 < -(i64::MAX as int)),
            },
    {
        proof {
            assert(content@.skip(0) =~= content@);
        }
        let mut start: usize = 0;
        while start < content.len() && byte_is_space(content[start])
            invariant
                start <= content@.len(),
                trim_front(content@) == trim_front(content@.skip(start as int)),
            decreases content@.len() - start,
        {
            proof {
                assert(content@.skip(start as int)[0] == content@[start as int]);
                assert(content@.skip(start as int).skip(1) =~= content@.skip(start + 1));
            }
            start += 1;
        }
        proof {
            if start == content@.len() {
                assert(content@.skip(start as int) =~= Seq::<u8>::empty());
            } else {
                assert(content@.skip(start as int)[0] == content@[start as int]);
            }
            assert(trim_front(content@.skip(start as int)) == content@.skip(start as int));
            assert(content@.subrange(start as int, content@.len() as int) =~= content@.skip(
                start as int,
            ));
        }
        let mut end: usize = content.len();
        while end > start && byte_is_space(content[end - 1])
            invariant
                start <= end <= content@.len(),
                trimmed(content@) == trim_back(content@.subrange(start as int, end as int)),
            decreases end,
        {
            proof {
                let sub = content@.subrange(start as int, end as int);
                assert(sub.last() == content@[end - 1]);
                assert(sub.drop_last() =~= content@.subrange(start as int, end - 1));
            }
            end -= 1;
        }
        let ghost t = content@.subrange(start as int, end as int);
        proof {
            if end > start {
                assert(t.last() == content@[end - 1]);
            } else {
                assert(t =~= Seq::<u8>::empty());
            }
            assert(trim_back(t) == t);
            assert(trimmed(content@) == t);
        }
        if start == end {
            return Err(TickError::IoError);
        }
        proof {
            assert(t[0] == content@[start as int]);
        }
        let negative = content[start] == 45;
        let dstart: usize = if negative {
            start + 1
        } else {
            start
        };
        let ghost d = content@.subrange(dstart as int, end as int);
        proof {
            if negative {
                assert(d =~= t.skip(1));
            } else {
                assert(d =~= t);
            }
        }
        if dstart == end {
            return Err(TickError::IoError);
        }
        proof {
            assert(content@.subrange(dstart as int, dstart as int) =~= Seq::<u8>::empty());
        }
        let mut value: i64 = 0;
        let mut idx: usize = dstart;
        while idx < end
            invariant
                dstart <= idx <= end <= content@.len(),
                start <= dstart <= end,
                d == content@.subrange(dstart as int, end as int),
                all_digits(content@.subrange(dstart as int, idx as int)),
                value == digits_value(content@.subrange(dstart as int, idx as int)),
                0 <= value,
            decreases end - idx,
        {
            let b = content[idx];
            let ghost prefix = content@.subrange(dstart as int, idx as int);
            let ghost prefix1 = content@.subrange(dstart as int, idx + 1);
            proof {
                assert(prefix1.drop_last() =~= prefix);
                assert(prefix1.last() == content@[idx as int]);
                assert(d[idx - dstart] == content@[idx as int]);
            }
            if b < 48 || b > 57 {
                proof {
                    assert(!is_digit(d[idx - dstart]));
                    assert(!all_digits(d));
                }
                return Err(TickError::IoError);
            }
            let scaled = match value.checked_mul(10) {
                Some(x) => x,
                None => {
                    proof {
                        if all_digits(d) {
                            assert(d.take((idx - dstart) as int) =~= prefix);
                            lemma_digits_overflow(d, (idx - dstart) as int, b);
                        }
                    }
                    return Err(TickError::IoError);
                },
            };
            value = match scaled.checked_add((b - 48) as i64) {
                Some(x) => x,
                None => {
                    proof {
                        if all_digits(d) {
                            assert(d.take((idx - dstart) as int) =~= prefix);
                            lemma_digits_overflow(d, (idx - dstart) as int, b);
                        }
                    }
                    return Err(TickError::IoError);
                },
            };
            idx += 1;
        }
        proof {
            assert(content@.subrange(dstart as int, end as int) == d);
        }
        if negative {
            Ok(-value)
        } else {
            Ok(value)
        }
    }
}

/// A plain test for the whitespace bytes the trim step removes.
fn byte_is_space(b: u8) -> (r: bool)
    ensures
        r == is_space(b),
{
    b == 32 || b == 10 || b == 13 || b == 9
}

/// A string of digits has a non-negative value.
proof fn lemma_digits_value_nonneg(s: Seq<u8>)
    requires
        all_digits(s),
    ensures
        digits_value(s) >= 0,
    decreases s.len(),
{
    if s.len() > 0 {
        assert(forall|i: int|
            0 <= i < s.drop_last().len() ==> s.drop_last()[i] == #[trigger] s[i]);
        lemma_digits_value_nonneg(s.drop_last());
        assert(is_digit(s[s.len() - 1]));
    }
}

/// A digit string is worth at least as much as any of its prefixes.
proof fn lemma_digits_value_prefix(s: Seq<u8>, k: int)
    requires
        all_digits(s),
        0 <= k <= s.len(),
    ensures
        digits_value(s.take(k)) <= digits_value(s),
    decreases s.len() - k,
{
    if k < s.len() {
        let next = s.take(k + 1);
        assert(next.drop_last() =~= s.take(k));
        assert(next.last() == s[k]);
        assert(forall|i: int| 0 <= i < k ==> s.take(k)[i] == #[trigger] s[i]);
        lemma_digits_value_nonneg(s.take(k));
        assert(digits_value(next) == digits_value(s.take(k)) * 10 + (next.last() - 48));
        assert(is_digit(s[k]));
        lemma_digits_value_prefix(s, k + 1);
    } else {
        assert(s.take(k) =~= s);
    }
}

/// When one more digit would push the running value past `i64::MAX`, the
/// whole digit string's value lies past it too.
proof fn lemma_digits_overflow(d: Seq<u8>, k: int, b: u8)
    requires
        all_digits(d),
        0 <= k < d.len(),
        d[k] == b,
        is_digit(b),
        digits_value(d.take(k)) * 10 + (b - 48) > i64::MAX as int,
    ensures
        digits_value(d) > i64::MAX as int,
{
    let next = d.take(k + 1);
    assert(next.drop_last() =~= d.take(k));
    assert(next.last() == b);
    assert(digits_value(next) == digits_value(d.take(k)) * 10 + (b - 48));
    lemma_digits_value_prefix(d, k + 1);
    assert(d.take(d.len() as int) =~= d);
}

} // verus!
