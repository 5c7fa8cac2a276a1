//! The periodic analytics snapshot: how many connections are live, how
//! many per country, and the text row appended to the log. Reading the
//! clock and the file itself belong to the caller.

use vstd::prelude::*;
use crate::country::CountryCode;
use crate::registry::{ConnModel, ConnectionSet};
use crate::text::{dec_chars, u64_to_string};

verus! {

/// How many live connections were located in the given country.
pub open spec fn spec_country_count(s: Seq<ConnModel>, c: CountryCode) -> nat
    decreases s.len(),
{
    if s.len() == 0 {
        0
    } else {
        ((if s[0].country == Some(c) {
            1int
        } else {
            0int
        }) + spec_country_count(s.drop_first(), c)) as nat
    }
}

/// Counts the live connections located in the given country.
#[verifier::loop_isolation(false)]
pub fn count_country(connections: &ConnectionSet, country: CountryCode) -> (r: u64)
    requires
        connections@.len() < 0x10000000000000000,
    ensures
        r == spec_country_count(connections@, country),
{
    let snapshot = connections.iter();
    let ghost s = connections@;
    let mut n: u64 = 0;
    let mut k: usize = 0;
    proof {
        assert(s.subrange(0, s.len() as int) =~= s);
        lemma_count_bound(s, country);
    }
    while k < snapshot.len()
        invariant
            Seq::new(snapshot@.len(), |i: int| snapshot@[i]@) == s,
            k <= s.len(),
            n + spec_country_count(s.subrange(k as int, s.len() as int), country)
                == spec_country_count(s, country),
        decreases s.len() - k,
    {
        let ghost tail = s.subrange(k as int, s.len() as int);
        proof {
            assert(tail[0] == s[k as int]);
            assert(tail.drop_first() =~= s.subrange(k + 1, s.len() as int));
            assert(snapshot@[k as int]@ == s[k as int]);
            lemma_count_bound(tail, country);
        }
        let matched = match &snapshot[k].country {
            Some(c) => {
                proof {
                    CountryCode::lemma_code_eq(*c, country);
                }
                c.code()[0] == country.code()[0] && c.code()[1] == country.code()[1]
            },
            None => false,
        };
        if matched {
            proof {
                assert(spec_country_count(tail, country) >= 1);
                assert(n < spec_country_count(s, country));
            }
            n = n + 1;
        }
        k += 1;
    }
    proof {
        assert(s.subrange(k as int, s.len() as int).len() == 0);
    }
    n
}

/// A country never counts more connections than are live.
proof fn lemma_count_bound(s: Seq<ConnModel>, c: CountryCode)
    ensures
        spec_country_count(s, c) <= s.len(),
    decreases s.len(),
{
    if s.len() > 0 {
        lemma_count_bound(s.drop_first(), c);
    }
}

/// The text of one per-country tally: the two letters, a colon, the count.
pub open spec fn spec_country_entry(c: CountryCode, n: u64) -> Seq<char> {
    seq![c.spec_code().0 as char, c.spec_code().1 as char, ':'] + dec_chars(n as nat)
}

/// One appended analytics row: the timestamp, the total, and the
/// semicolon-joined per-country tallies.
pub open spec fn spec_analytics_row(
    timestamp: Seq<char>,
    total: u64,
    entries: Seq<(CountryCode, u64)>,
) -> Seq<char>
    decreases entries.len(),
{
    if entries.len() == 0 {
        timestamp + seq![','] + dec_chars(total as nat) + seq![',']
    } else {
        spec_analytics_row(timestamp, total, entries.drop_last()) + (if entries.len() == 1 {
            seq![]
        } else {
            seq![';']
        }) + spec_country_entry(entries.last().0, entries.last().1)
    }
}

/// Builds an analytics row. The per-country tallies follow the timestamp
/// and total, separated by semicolons; the row ends the line.
#[verifier::loop_isolation(false)]
pub fn analytics_row(timestamp: &String, total: u64, entries: &Vec<(CountryCode, u64)>) -> (r:
    String)
    requires
        forall|i: int| 0 <= i < entries@.len() ==> (#[trigger] entries@[i]).0.wf(),
    ensures
        r@ == spec_analytics_row(timestamp@, total, entries@) + seq!['\n'],
{
    let mut row = clone_string(timestamp);
    row.append(",");
    row.append(u64_to_string(total).as_str());
    row.append(",");
    proof {
        reveal_strlit(",");
        assert(","@ =~= seq![',']);
        assert(row@ =~= spec_analytics_row(timestamp@, total, entries@.subrange(0, 0)));
        assert(entries@.subrange(0, 0) =~= Seq::<(CountryCode, u64)>::empty());
    }
    let mut k: usize = 0;
    while k < entries.len()
        invariant
            k <= entries@.len(),
            row@ =~= spec_analytics_row(timestamp@, total, entries@.subrange(0, k as int)),
        decreases entries@.len() - k,
    {
        if k > 0 {
            row.append(";");
        }
        let (c, n) = entries[k];
        let code = c.code();
        row.append(crate::text::ascii_char_str(code[0]));
        row.append(crate::text::ascii_char_str(code[1]));
        row.append(":");
        row.append(u64_to_string(n).as_str());
        proof {
            reveal_strlit(";");
            reveal_strlit(":");
            assert(";"@ =~= seq![';']);
            assert(":"@ =~= seq![':']);
            assert(entries@.subrange(0, k + 1).drop_last() =~= entries@.subrange(0, k as int));
            assert(entries@.subrange(0, k + 1).last() == entries@[k as int]);
            assert(row@ =~= spec_analytics_row(timestamp@, total, entries@.subrange(0, k + 1)));
        }
        k += 1;
    }
    row.append("\n");
    proof {
        reveal_strlit("\n");
        assert("\n"@ =~= seq!['\n']);
        assert(entries@.subrange(0, entries@.len() as int) =~= entries@);
        assert(row@ =~= spec_analytics_row(timestamp@, total, entries@) + seq!['\n']);
    }
    row
}

/// The header of a fresh analytics log.
pub fn analytics_header() -> (r: &'static str)
    ensures
        r@ == "timestamp,total,countries\n"@,
{
    "timestamp,total,countries\n"
}

fn clone_string(s: &String) -> (r: String)
    ensures
        r@ == s@,
{
    s.clone()
}

} // verus!
