//! Text assembly helpers for the diagnostic messages: decimal rendering of
//! counts and comma-separated joining of key lists.
use vstd::prelude::*;
use vstd::string::*;
use crate::text::strings_view;

verus! {

/// The digit character for a value below ten.
pub open spec fn digit_char(d: int) -> char {
    if d == 0 {
        '0'
    } else if d == 1 {
        '1'
    } else if d == 2 {
        '2'
    } else if d == 3 {
        '3'
    } else if d == 4 {
        '4'
    } else if d == 5 {
        '5'
    } else if d == 6 {
        '6'
    } else if d == 7 {
        '7'
    } else if d == 8 {
        '8'
    } else {
        '9'
    }
}

/// The decimal rendering of a non-negative number, most significant digit
/// first.
pub open spec fn dec_rep(n: int) -> Seq<char>
    decreases n,
{
    if n < 0 {
        Seq::empty()
    } else if n < 10 {
        seq![digit_char(n)]
    } else {
        dec_rep(n / 10).push(digit_char(n % 10))
    }
}

/// The digit character for a value below ten, as a string.
fn digit_str(d: usize) -> (r: &'static str)
    requires
        d < 10,
    ensures
        r@ == seq![digit_char(d as int)],
{
    proof {
        reveal_strlit("0");
        reveal_strlit("1");
        reveal_strlit("2");
        reveal_strlit("3");
        reveal_strlit("4");
        reveal_strlit("5");
        reveal_strlit("6");
        reveal_strlit("7");
        reveal_strlit("8");
        reveal_strlit("9");
    }
    let r: &'static str = if d == 0 {
        "0"
    } else if d == 1 {
        "1"
    } else if d == 2 {
        "2"
    } else if d == 3 {
        "3"
    } else if d == 4 {
        "4"
    } else if d == 5 {
        "5"
    } else if d == 6 {
        "6"
    } else if d == 7 {
        "7"
    } else if d == 8 {
        "8"
    } else {
        "9"
    };
    proof {
        assert(r@ =~= seq![digit_char(d as int)]);
    }
    r
}

/// The decimal rendering of `n`, most significant digit first.
pub fn format_usize(n: usize) -> (r: String)
    ensures
        r@ == dec_rep(n as int),
    decreases n,
{
    if n < 10 {
        String::from_str(digit_str(n))
    } else {
        let mut s = format_usize(n / 10);
        s.append(digit_str(n % 10));
        proof {
            assert(dec_rep((n / 10) as int) + seq![digit_char((n % 10) as int)] =~= dec_rep(
                (n / 10) as int,
            ).push(digit_char((n % 10) as int)));
        }
        s
    }
}

/// What follows the first item of a comma-separated list: a separator and an
/// item, for each remaining item.
pub open spec fn tail_comma(items: Seq<Seq<char>>) -> Seq<char>
    decreases items.len(),
{
    if items.len() == 0 {
        Seq::empty()
    } else {
        ", "@ + items[0] + tail_comma(items.drop_first())
    }
}

/// The items joined with a comma and a space between each two.
pub open spec fn join_comma(items: Seq<Seq<char>>) -> Seq<char> {
    if items.len() == 0 {
        Seq::empty()
    } else {
        items[0] + tail_comma(items.drop_first())
    }
}

/// The strings of `items` joined with a comma and a space between each two.
pub fn join_keys(items: &Vec<String>) -> (r: String)
    ensures
        r@ == join_comma(strings_view(items@)),
{
    let ghost iv = strings_view(items@);
    let mut out = String::new();
    if items.len() == 0 {
        return out;
    }
    out.append(items[0].as_str());
    let mut i: usize = 1;
    proof {
        assert(iv[0] == items@[0]@);
        assert(iv.skip(1) =~= iv.drop_first());
    }
    while i < items.len()
        invariant
            iv == strings_view(items@),
            iv.len() == items.len(),
            1 <= i <= items.len(),
            out@ + tail_comma(iv.skip(i as int)) == join_comma(iv),
        decreases items.len() - i,
    {
        out.append(", ");
        out.append(items[i].as_str());
        proof {
            let tail = iv.skip(i as int);
            assert(tail[0] == iv[i as int]);
            assert(iv[i as int] == items@[i as int]@);
            assert(tail.drop_first() =~= iv.skip(i as int + 1));
            assert(tail_comma(tail) == ", "@ + tail[0] + tail_comma(tail.drop_first()));
            assert(out@ + tail_comma(iv.skip(i as int + 1)) =~= join_comma(iv));
        }
        i = i + 1;
    }
    proof {
        assert(tail_comma(iv.skip(items@.len() as int)) =~= Seq::<char>::empty());
        assert(out@ =~= out@ + tail_comma(iv.skip(items@.len() as int)));
    }
    out
}

} // verus!
