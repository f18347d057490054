//! The bytes a command writes for its values, in the formats that need no serializer:
//! raw XML, and the plain parts of human output.

use vstd::prelude::*;
use vstd::string::StringSliceAdditionalSpecFns;

use super::value::Value;

verus! {

/// How values are written.
#[derive(Clone, Copy, Debug, Default, PartialEq, Eq)]
pub enum OutputFormat {
    /// Text for people.
    #[default]
    Human,
    /// One versioned JSON document.
    Json,
    /// Canonical XML bytes only.
    Raw,
}

/// The raw output of values: their XML bytes one after the other; `None` where a value is
/// not XML.
pub open spec fn raw_bytes(values: Seq<Value>) -> Option<Seq<u8>>
    decreases values.len(),
{
    if values.len() == 0 {
        Some(Seq::empty())
    } else {
        match (raw_bytes(values.drop_last()), values.last()) {
            (Some(b), Value::Xml(x)) => Some(b + x@),
            _ => None,
        }
    }
}

/// Writes values in the raw format (see `raw_bytes`); `None` where one is not XML, in
/// which case nothing may be written.
pub fn raw_output(values: &Vec<Value>) -> (r: Option<Vec<u8>>)
    ensures
        match r {
            Some(b) => raw_bytes(values@) == Some(b@),
            None => raw_bytes(values@) is None,
        },
{
    let mut out: Vec<u8> = Vec::new();
    let mut i: usize = 0;
    while i < values.len()
        invariant
            0 <= i <= values@.len(),
            raw_bytes(values@.take(i as int)) == Some(out@),
        decreases values@.len() - i,
    {
        proof {
            assert(values@.take(i + 1).drop_last() =~= values@.take(i as int));
            assert(values@.take(i + 1).last() == values@[i as int]);
        }
        match &values[i] {
            Value::Xml(x) => {
                let mut j: usize = 0;
                let ghost start = out@;
                while j < x.len()
                    invariant
                        0 <= j <= x@.len(),
                        out@ == start + x@.take(j as int),
                    decreases x@.len() - j,
                {
                    out.push(x[j]);
                    proof {
                        assert(x@.take(j + 1) =~= x@.take(j as int).push(x@[j as int]));
                        assert(out@ =~= start + x@.take(j + 1));
                    }
                    j = j + 1;
                }
                proof {
                    assert(x@.take(x@.len() as int) =~= x@);
                }
            },
            _ => {
                proof {
                    lemma_raw_stays_none(values@, i as int + 1);
                    assert(values@.take(values@.len() as int) =~= values@);
                }
                return None;
            },
        }
        i = i + 1;
    }
    proof {
        assert(values@.take(values@.len() as int) =~= values@);
    }
    Some(out)
}

proof fn lemma_raw_stays_none(values: Seq<Value>, k: int)
    requires
        0 < k <= values.len(),
        raw_bytes(values.take(k)) is None,
    ensures
        raw_bytes(values) is None,
    decreases values.len() - k,
{
    if k < values.len() {
        assert(values.take(k + 1).drop_last() =~= values.take(k));
        lemma_raw_stays_none(values, k + 1);
    } else {
        assert(values.take(k) =~= values);
    }
}

/// The human output of a value that needs no serializer: nothing for no value, a text and a
/// line feed, XML bytes exactly as they are; `None` for the values written as JSON.
pub open spec fn plain_bytes(v: Value) -> Option<Seq<u8>> {
    match v {
        Value::Unit => Some(Seq::empty()),
        Value::Text(t) => Some(vstd::utf8::encode_utf8(t@) + seq![10u8]),
        Value::Xml(x) => Some(x@),
        _ => None,
    }
}

/// Writes one value for people where it needs no serializer (see `plain_bytes`).
pub fn plain_output(value: &Value) -> (r: Option<Vec<u8>>)
    ensures
        match r {
            Some(b) => plain_bytes(*value) == Some(b@),
            None => plain_bytes(*value) is None,
        },
{
    match value {
        Value::Unit => Some(Vec::new()),
        Value::Text(t) => {
            let bytes = t.as_str().as_bytes();
            let mut out: Vec<u8> = Vec::new();
            let mut i: usize = 0;
            while i < bytes.len()
                invariant
                    0 <= i <= bytes@.len(),
                    out@ == bytes@.take(i as int),
                decreases bytes@.len() - i,
            {
                out.push(bytes[i]);
                proof {
                    assert(bytes@.take(i + 1) =~= bytes@.take(i as int).push(bytes@[i as int]));
                }
                i = i + 1;
            }
            out.push(10u8);
            proof {
                assert(bytes@.take(bytes@.len() as int) =~= bytes@);
                assert(out@ =~= vstd::utf8::encode_utf8(t@) + seq![10u8]);
            }
            Some(out)
        },
        Value::Xml(x) => {
            let mut out: Vec<u8> = Vec::new();
            let mut i: usize = 0;
            while i < x.len()
                invariant
                    0 <= i <= x@.len(),
                    out@ == x@.take(i as int),
                decreases x@.len() - i,
            {
                out.push(x[i]);
                proof {
                    assert(x@.take(i + 1) =~= x@.take(i as int).push(x@[i as int]));
                }
                i = i + 1;
            }
            proof {
                assert(x@.take(x@.len() as int) =~= x@);
            }
            Some(out)
        },
        _ => None,
    }
}

} // verus!
