//! The text form of a source scan, as plans are printed.
use vstd::prelude::*;
use vstd::string::*;
use crate::bound::{Bound, TimestampRange};
use crate::logical_source::LogicalSource;

verus! {

/// The decimal digits of a natural number.
pub open spec fn decimal_digits(n: nat) -> Seq<char>
    decreases n,
{
    let c = ((n % 10) + 0x30) as char;
    if n < 10 {
        seq![c]
    } else {
        decimal_digits(n / 10).push(c)
    }
}

/// The decimal text of an integer, with a leading minus when negative.
pub open spec fn decimal(x: int) -> Seq<char> {
    if x < 0 {
        seq!['-'] + decimal_digits((-x) as nat)
    } else {
        decimal_digits(x as nat)
    }
}

/// Calls `i64::to_string`, which prints the integer in decimal as `Display`
/// does: its digits, with a leading minus when it is negative.
#[verifier::external_body]
fn i64_to_string(x: i64) -> (s: String)
    ensures
        s@ == decimal(x as int),
{
    x.to_string()
}

/// The debug text of a bound, as `derive(Debug)` writes an enum.
pub open spec fn bound_text(b: Bound<i64>) -> Seq<char> {
    match b {
        Bound::Included(t) => "Included("@ + decimal(t as int) + ")"@,
        Bound::Excluded(t) => "Excluded("@ + decimal(t as int) + ")"@,
        Bound::Unbounded => "Unbounded"@,
    }
}

/// The debug text of a range: its two bounds as a pair.
pub open spec fn range_text(r: TimestampRange) -> Seq<char> {
    "("@ + bound_text(r.0) + ", "@ + bound_text(r.1) + ")"@
}

/// `parts` joined by `sep`.
pub open spec fn join(parts: Seq<Seq<char>>, sep: Seq<char>) -> Seq<char>
    decreases parts.len(),
{
    if parts.len() == 0 {
        Seq::empty()
    } else if parts.len() == 1 {
        parts[0]
    } else {
        join(parts.drop_last(), sep) + sep + parts.last()
    }
}

/// The text of a source scan: the source's name, its columns and its
/// timestamp range; a scan without a catalog entry is just named.
pub open spec fn source_text(node: LogicalSource) -> Seq<char> {
    match node.core.catalog {
        Some(catalog) => "LogicalSource { source: "@ + catalog.name@ + ", columns: ["@ + join(
            node.base.schema.fields@.map_values(|f: crate::catalog::Field| f.name@),
            ", "@,
        ) + "], time_range: ["@ + range_text(node.kafka_timestamp_range) + "] }"@,
        None => "LogicalSource"@,
    }
}

fn bound_string(b: &Bound<i64>) -> (s: String)
    ensures
        s@ == bound_text(*b),
{
    match b {
        Bound::Included(t) => {
            let mut s = String::from_str("Included(");
            let digits = i64_to_string(*t);
            s.append(digits.as_str());
            s.append(")");
            s
        },
        Bound::Excluded(t) => {
            let mut s = String::from_str("Excluded(");
            let digits = i64_to_string(*t);
            s.append(digits.as_str());
            s.append(")");
            s
        },
        Bound::Unbounded => String::from_str("Unbounded"),
    }
}

impl LogicalSource {
    /// The text that the plan printer shows for the scan.
    pub fn fmt_string(&self) -> (text: String)
        ensures
            text@ == source_text(*self),
    {
        match &self.core.catalog {
            Some(catalog) => {
                let names = self.column_names();
                let mut text = String::from_str("LogicalSource { source: ");
                text.append(catalog.name.as_str());
                text.append(", columns: [");
                let ghost start = text@;
                let ghost parts = self.base.schema.fields@.map_values(|f: crate::catalog::Field| f.name@);
                let mut i: usize = 0;
                while i < names.len()
                    invariant
                        i <= names@.len(),
                        names@.len() == parts.len(),
                        forall|k: int| 0 <= k < names@.len() ==> (#[trigger] names@[k])@ == parts[k],
                        text@ == start + join(parts.take(i as int), ", "@),
                    decreases names@.len() - i,
                {
                    let ghost before = text@;
                    if i > 0 {
                        text.append(", ");
                    }
                    text.append(names[i].as_str());
                    proof {
                        let t = parts.take(i + 1);
                        assert(t.drop_last() == parts.take(i as int));
                        assert(t.last() == parts[i as int]);
                        if i == 0 {
                            assert(parts.take(0) =~= Seq::<Seq<char>>::empty());
                            assert(t.len() == 1 && t[0] == parts[0]);
                        }
                    }
                    i = i + 1;
                }
                proof {
                    assert(parts.take(parts.len() as int) == parts);
                }
                text.append("], time_range: [(");
                let lower = bound_string(&self.kafka_timestamp_range.0);
                text.append(lower.as_str());
                text.append(", ");
                let upper = bound_string(&self.kafka_timestamp_range.1);
                text.append(upper.as_str());
                text.append(")] }");
                proof {
                    reveal_strlit("LogicalSource { source: ");
                    reveal_strlit(", columns: [");
                    reveal_strlit("], time_range: [(");
                    reveal_strlit("], time_range: [");
                    reveal_strlit("(");
                    reveal_strlit(", ");
                    reveal_strlit(")] }");
                    reveal_strlit(")");
                    reveal_strlit("] }");
                    assert(text@ =~= source_text(*self));
                }
                text
            },
            None => String::from_str("LogicalSource"),
        }
    }
}

} // verus!
