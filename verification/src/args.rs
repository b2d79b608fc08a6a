use vstd::prelude::*;

verus! {

/// What the process does after looking at its arguments: either print the
/// usage text and stop, or connect to the given endpoint.
pub enum Launch {
    Usage,
    Connect { host: Vec<u8>, port: u16, json: bool },
}

pub open spec fn is_digit(b: u8) -> bool {
    48 <= b <= 57
}

/// The numeric value of a string of decimal digits, most significant first.
pub open spec fn digits_val(s: Seq<u8>) -> int
    decreases s.len(),
{
    if s.len() == 0 {
        0
    } else {
        digits_val(s.drop_last()) * 10 + (s.last() - 48)
    }
}

/// A port argument may carry one leading plus sign, as Rust's integer
/// parsing accepts; this is the digit part that remains.
pub open spec fn digit_body(s: Seq<u8>) -> Seq<u8> {
    if s.len() >= 1 && s[0] == 43 {
        s.skip(1)
    } else {
        s
    }
}

pub open spec fn all_digits(s: Seq<u8>) -> bool {
    forall|i: int| 0 <= i < s.len() ==> is_digit(#[trigger] s[i])
}

/// Exactly the strings that Rust parses as a `u16`: an optional leading
/// plus sign, then one or more decimal digits, with value at most 65535.
pub open spec fn is_port_str(s: Seq<u8>) -> bool {
    &&& digit_body(s).len() >= 1
    &&& all_digits(digit_body(s))
    &&& digits_val(digit_body(s)) <= 65535
}

pub open spec fn port_val(s: Seq<u8>) -> int {
    digits_val(digit_body(s))
}

proof fn lemma_digits_val_nonneg(s: Seq<u8>)
    requires
        all_digits(s),
    ensures
        digits_val(s) >= 0,
    decreases s.len(),
{
    if s.len() > 0 {
        assert(all_digits(s.drop_last()));
        lemma_digits_val_nonneg(s.drop_last());
    }
}

/// Once some prefix of a digit string is already too large, the whole
/// string is too large: appending digits never shrinks the value.
proof fn lemma_digits_val_monotone(s: Seq<u8>, i: int)
    requires
        all_digits(s),
        0 <= i <= s.len(),
    ensures
        digits_val(s) >= digits_val(s.take(i)),
    decreases s.len() - i,
{
    if i < s.len() {
        lemma_digits_val_monotone(s, i + 1);
        assert(s.take(i + 1).drop_last() =~= s.take(i));
        assert(s.take(i + 1).last() == s[i]);
        assert(all_digits(s.take(i)));
        lemma_digits_val_nonneg(s.take(i));
        assert(digits_val(s.take(i + 1)) == digits_val(s.take(i)) * 10 + (s[i] - 48));
        assert(digits_val(s.take(i + 1)) >= digits_val(s.take(i)));
    } else {
        assert(s.take(i) =~= s);
    }
}

/// Parses a decimal port number exactly as `str::parse::<u16>` does:
/// `Some` on an optional plus sign followed by digits whose value fits in
/// sixteen bits, `None` on everything else.
pub fn parse_port(arg: &Vec<u8>) -> (r: Option<u16>)
    ensures
        r is Some <==> is_port_str(arg@),
        r is Some ==> r->0 == port_val(arg@),
{
    let start: usize = if arg.len() >= 1 && arg[0] == 43 {
        1
    } else {
        0
    };
    proof {
        assert(digit_body(arg@) =~= arg@.skip(start as int));
    }
    if arg.len() == start {
        return None;
    }
    let ghost d: Seq<u8> = digit_body(arg@);
    let mut acc: u32 = 0;
    let mut i: usize = start;
    while i < arg.len()
        invariant
            start <= i <= arg.len(),
            arg@.len() - start >= 1,
            d == arg@.skip(start as int),
            d == digit_body(arg@),
            acc == digits_val(d.take(i - start)),
            acc <= 65535,
            all_digits(d.take(i - start)),
        decreases arg.len() - i,
    {
        let b = arg[i];
        proof {
            assert(d[i - start] == arg@[i as int]);
        }
        if b < 48 || b > 57 {
            proof {
                assert(!is_digit(d[i - start]));
                assert(!all_digits(d));
            }
            return None;
        }
        let next: u32 = acc * 10 + (b - 48) as u32;
        proof {
            assert(d.take(i + 1 - start).drop_last() =~= d.take(i - start));
            assert(d.take(i + 1 - start).last() == d[i - start]);
            assert(all_digits(d.take(i + 1 - start)));
            assert(digits_val(d.take(i + 1 - start)) == digits_val(d.take(i - start)) * 10 + (b
                - 48));
            assert(digits_val(d.take(i + 1 - start)) == next);
        }
        if next > 65535 {
            proof {
                if all_digits(d) {
                    lemma_digits_val_monotone(d, i + 1 - start);
                    assert(digits_val(d) >= next);
                    assert(!is_port_str(arg@));
                }
            }
            return None;
        }
        acc = next;
        i = i + 1;
    }
    proof {
        assert(d.take(arg.len() - start) =~= d);
    }
    Some(acc as u16)
}

pub open spec fn long_flag() -> Seq<u8> {
    seq![45u8, 45u8, 106u8, 115u8, 111u8, 110u8]
}

pub open spec fn short_flag() -> Seq<u8> {
    seq![45u8, 106u8]
}

/// Whether one argument is the flag that switches on JSON output:
/// `--json` or `-j`.
pub open spec fn is_json_flag(a: Seq<u8>) -> bool {
    a == long_flag() || a == short_flag()
}

fn json_flag_arg(a: &Vec<u8>) -> (r: bool)
    ensures
        r == is_json_flag(a@),
{
    if a.len() == 6 && a[0] == 45 && a[1] == 45 && a[2] == 106 && a[3] == 115 && a[4] == 111
        && a[5] == 110 {
        proof {
            assert(a@ =~= long_flag());
        }
        true
    } else if a.len() == 2 && a[0] == 45 && a[1] == 106 {
        proof {
            assert(a@ =~= short_flag());
        }
        true
    } else {
        proof {
            if a@ == long_flag() {
                assert(a@.len() == 6);
                assert(false);
            }
            if a@ == short_flag() {
                assert(a@.len() == 2);
                assert(false);
            }
        }
        false
    }
}

/// Whether any argument after host and port asks for JSON mode.
pub open spec fn wants_json(args: Seq<Vec<u8>>) -> bool {
    exists|i: int| 2 <= i < args.len() && is_json_flag(#[trigger] args[i]@)
}

/// Resolves the command line: fewer than two positional arguments, or a
/// port that does not parse, mean the usage text; otherwise the client
/// connects to the given host and port, in JSON mode exactly when a later
/// argument is `--json` or `-j`. Unknown flags are ignored.
pub fn resolve(args: Vec<Vec<u8>>) -> (r: Launch)
    ensures
        r is Usage <==> (args@.len() < 2 || !is_port_str(args@[1]@)),
        r matches Launch::Connect { host, port, json } ==> {
            &&& host@ == args@[0]@
            &&& port == port_val(args@[1]@)
            &&& json == wants_json(args@)
        },
{
    if args.len() < 2 {
        return Launch::Usage;
    }
    let port = match parse_port(&args[1]) {
        Option::None => {
            return Launch::Usage;
        },
        Option::Some(p) => p,
    };
    let mut json = false;
    let mut i: usize = 2;
    while i < args.len()
        invariant
            2 <= i <= args.len(),
            json == exists|k: int| 2 <= k < i && is_json_flag(#[trigger] args@[k]@),
        decreases args.len() - i,
    {
        if json_flag_arg(&args[i]) {
            json = true;
        }
        i = i + 1;
    }
    let mut host: Vec<u8> = Vec::new();
    let mut j: usize = 0;
    while j < args[0].len()
        invariant
            args@.len() >= 2,
            j <= args@[0]@.len(),
            host@ == args@[0]@.subrange(0, j as int),
        decreases args@[0]@.len() - j,
    {
        host.push(args[0][j]);
        proof {
            assert(host@ =~= args@[0]@.subrange(0, j + 1 as int));
        }
        j = j + 1;
    }
    proof {
        assert(args@[0]@.subrange(0, args@[0]@.len() as int) =~= args@[0]@);
    }
    Launch::Connect { host, port, json }
}

} // verus!
