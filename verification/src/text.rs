use vstd::prelude::*;

verus! {

/// The character for one decimal digit value.
pub open spec fn dec_digit(d: int) -> char {
    if d == 0 {
        '0'
    } else if d == 1 {
        '1'
    } else if d == 2 {
        '2'
    } else if d == 3 {
        '3'
    } else if d == 4 {
        '4'
    } else if d == 5 {
        '5'
    } else if d == 6 {
        '6'
    } else if d == 7 {
        '7'
    } else if d == 8 {
        '8'
    } else {
        '9'
    }
}

/// The decimal representation of a non-negative integer, most significant
/// digit first.
pub open spec fn dec_of(n: int) -> Seq<char>
    decreases n,
{
    if n < 10 {
        seq![dec_digit(n)]
    } else {
        dec_of(n / 10).push(dec_digit(n % 10))
    }
}

/// A POSIX path join: the root path `/` gets the name appended directly,
/// any other base gets a `/` separator first.
pub open spec fn path_join(base: Seq<char>, name: Seq<char>) -> Seq<char> {
    if base.len() == 1 && base[0] == '/' {
        base + name
    } else {
        base + seq!['/'] + name
    }
}

fn digit_str(d: u64) -> (r: String)
    requires
        d < 10,
    ensures
        r@ =~= seq![dec_digit(d as int)],
{
    proof {
        reveal_strlit("0");
        reveal_strlit("1");
        reveal_strlit("2");
        reveal_strlit("3");
        reveal_strlit("4");
        reveal_strlit("5");
        reveal_strlit("6");
        reveal_strlit("7");
        reveal_strlit("8");
        reveal_strlit("9");
    }
    if d == 0 {
        String::from_str("0")
    } else if d == 1 {
        String::from_str("1")
    } else if d == 2 {
        String::from_str("2")
    } else if d == 3 {
        String::from_str("3")
    } else if d == 4 {
        String::from_str("4")
    } else if d == 5 {
        String::from_str("5")
    } else if d == 6 {
        String::from_str("6")
    } else if d == 7 {
        String::from_str("7")
    } else if d == 8 {
        String::from_str("8")
    } else {
        String::from_str("9")
    }
}

/// Format an unsigned integer in decimal.
pub fn u64_to_dec(n: u64) -> (r: String)
    ensures
        r@ == dec_of(n as int),
    decreases n,
{
    if n < 10 {
        let r = digit_str(n);
        proof {
            assert(r@ =~= dec_of(n as int));
        }
        r
    } else {
        let q = n / 10;
        let d = n % 10;
        let mut r = u64_to_dec(q);
        let tail = digit_str(d);
        r.append(tail.as_str());
        proof {
            assert(r@ =~= dec_of(q as int).push(dec_digit(d as int)));
        }
        r
    }
}

/// Join a POSIX-style base path and a child name.
pub fn join_path(base: &String, name: &String) -> (r: String)
    ensures
        r@ == path_join(base@, name@),
{
    let slash = String::from_str("/");
    proof {
        reveal_strlit("/");
    }
    let mut r = base.clone();
    if *base == slash {
        proof {
            assert(base@ =~= seq!['/']);
        }
        r.append(name.as_str());
        proof {
            assert(r@ =~= path_join(base@, name@));
        }
        r
    } else {
        proof {
            assert(!(base@.len() == 1 && base@[0] == '/')) by {
                if base@.len() == 1 && base@[0] == '/' {
                    assert(base@ =~= slash@);
                }
            }
        }
        r.append(slash.as_str());
        r.append(name.as_str());
        proof {
            assert(r@ =~= path_join(base@, name@));
        }
        r
    }
}

} // verus!
