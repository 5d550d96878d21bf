//! The text written for each event: `accession,taxid,gid` to the output and
//! `<query> not found` to the diagnostic stream, one line each.
use vstd::prelude::*;
use vstd::string::StringExecFns;

verus! {

/// The character of a decimal digit.
pub open spec fn digit_char(d: nat) -> char {
    if d == 0 {
        '0'
    } else if d == 1 {
        '1'
    } else if d == 2 {
        '2'
    } else if d == 3 {
        '3'
    } else if d == 4 {
        '4'
    } else if d == 5 {
        '5'
    } else if d == 6 {
        '6'
    } else if d == 7 {
        '7'
    } else if d == 8 {
        '8'
    } else {
        '9'
    }
}

/// The decimal digits of `n`, without leading zeros.
pub open spec fn decimal(n: nat) -> Seq<char>
    decreases n,
{
    if n < 10 {
        seq![digit_char(n)]
    } else {
        decimal(n / 10).push(digit_char(n % 10))
    }
}

/// The output line of a match.
pub open spec fn found_line(accession: Seq<char>, taxid: u64, gid: u64) -> Seq<char> {
    accession + seq![','] + decimal(taxid as nat) + seq![','] + decimal(gid as nat) + seq!['\n']
}

/// The diagnostic line of a query that was not found.
pub open spec fn not_found_line(query: Seq<char>) -> Seq<char> {
    query + seq![' ', 'n', 'o', 't', ' ', 'f', 'o', 'u', 'n', 'd', '\n']
}

fn digit_str(d: u64) -> (r: &'static str)
    requires
        d < 10,
    ensures
        r@ == seq![digit_char(d as nat)],
{
    proof {
        reveal_strlit("0");
        reveal_strlit("1");
        reveal_strlit("2");
        reveal_strlit("3");
        reveal_strlit("4");
        reveal_strlit("5");
        reveal_strlit("6");
        reveal_strlit("7");
        reveal_strlit("8");
        reveal_strlit("9");
    }
    if d == 0 {
        "0"
    } else if d == 1 {
        "1"
    } else if d == 2 {
        "2"
    } else if d == 3 {
        "3"
    } else if d == 4 {
        "4"
    } else if d == 5 {
        "5"
    } else if d == 6 {
        "6"
    } else if d == 7 {
        "7"
    } else if d == 8 {
        "8"
    } else {
        "9"
    }
}

/// Appends the decimal digits of `n` to `s`.
fn push_decimal(s: &mut String, n: u64)
    ensures
        final(s)@ == old(s)@ + decimal(n as nat),
    decreases n,
{
    if n >= 10 {
        push_decimal(s, n / 10);
        s.append(digit_str(n % 10));
        proof {
            assert(decimal(n as nat) == decimal((n / 10) as nat).push(digit_char((n % 10) as nat)));
            assert(final(s)@ =~= old(s)@ + decimal(n as nat));
        }
    } else {
        s.append(digit_str(n));
    }
}

/// The output line of a match: `accession,taxid,gid` and a newline.
pub fn format_found(accession: &str, taxid: u64, gid: u64) -> (r: String)
    ensures
        r@ == found_line(accession@, taxid, gid),
{
    let mut s = String::from_str(accession);
    proof {
        reveal_strlit(",");
        reveal_strlit("\n");
    }
    s.append(",");
    push_decimal(&mut s, taxid);
    s.append(",");
    push_decimal(&mut s, gid);
    s.append("\n");
    proof {
        assert(s@ =~= found_line(accession@, taxid, gid));
    }
    s
}

/// The diagnostic line of a query that was not found: `<query> not found`
/// and a newline.
pub fn format_not_found(query: &str) -> (r: String)
    ensures
        r@ == not_found_line(query@),
{
    let mut s = String::from_str(query);
    proof {
        reveal_strlit(" not found\n");
    }
    s.append(" not found\n");
    proof {
        assert(s@ =~= not_found_line(query@));
    }
    s
}

} // verus!
