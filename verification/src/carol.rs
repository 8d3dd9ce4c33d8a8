//! Builds the cumulative carol: twelve verses, each naming its day and
//! listing every gift from that day's down to the first.

use vstd::prelude::*;

verus! {

/// The gift named on day `n`; days outside the twelve give a placeholder.
pub open spec fn spec_present(n: u8) -> Seq<char> {
    if n == 1 {
        "a partridge in a pear tree"@
    } else if n == 2 {
        "two turtle doves"@
    } else if n == 3 {
        "three french hens"@
    } else if n == 4 {
        "four calling birds"@
    } else if n == 5 {
        "five golf rings"@
    } else if n == 6 {
        "six geese a-laying"@
    } else if n == 7 {
        "seven swans a-swimming"@
    } else if n == 8 {
        "eight maids a-milking"@
    } else if n == 9 {
        "nine ladies dancing"@
    } else if n == 10 {
        "ten lords a-leaping"@
    } else if n == 11 {
        "eleven pipers piping"@
    } else if n == 12 {
        "twelve drummers drumming"@
    } else {
        "???"@
    }
}

/// The ordinal name of day `n`; days outside the twelve give a placeholder.
pub open spec fn spec_ordinal(n: u8) -> Seq<char> {
    if n == 1 {
        "first"@
    } else if n == 2 {
        "second"@
    } else if n == 3 {
        "third"@
    } else if n == 4 {
        "fourth"@
    } else if n == 5 {
        "fifth"@
    } else if n == 6 {
        "sixth"@
    } else if n == 7 {
        "seventh"@
    } else if n == 8 {
        "eighth"@
    } else if n == 9 {
        "ninth"@
    } else if n == 10 {
        "tenth"@
    } else if n == 11 {
        "eleventh"@
    } else if n == 12 {
        "twelfth"@
    } else {
        "???"@
    }
}

/// The gifts of day `day` listed from that day down to the second, each
/// followed by a comma and line break; the first day's gift stands apart at
/// the end of every verse.
pub open spec fn spec_gifts(day: int) -> Seq<char>
    decreases day,
{
    if day < 2 {
        Seq::empty()
    } else {
        spec_present(day as u8) + ",\n"@ + spec_gifts(day - 1)
    }
}

/// One verse of the carol.
pub open spec fn spec_verse(day: int) -> Seq<char> {
    "On the "@ + spec_ordinal(day as u8) + " day of Christmas my true love sent to me\n"@
        + spec_gifts(day) + (if day > 1 {
        "and "@
    } else {
        Seq::<char>::empty()
    }) + spec_present(1) + ".\n\n"@
}

/// The carol through day `day`: the verses of days one to `day`, in order.
pub open spec fn spec_poem(day: int) -> Seq<char>
    decreases day,
{
    if day < 1 {
        Seq::empty()
    } else {
        spec_poem(day - 1) + spec_verse(day)
    }
}

/// Returns the gift named on day `n`.
pub fn present(n: u8) -> (r: String)
    ensures
        r@ == spec_present(n),
{
    if n == 1 {
        String::from_str("a partridge in a pear tree")
    } else if n == 2 {
        String::from_str("two turtle doves")
    } else if n == 3 {
        String::from_str("three french hens")
    } else if n == 4 {
        String::from_str("four calling birds")
    } else if n == 5 {
        String::from_str("five golf rings")
    } else if n == 6 {
        String::from_str("six geese a-laying")
    } else if n == 7 {
        String::from_str("seven swans a-swimming")
    } else if n == 8 {
        String::from_str("eight maids a-milking")
    } else if n == 9 {
        String::from_str("nine ladies dancing")
    } else if n == 10 {
        String::from_str("ten lords a-leaping")
    } else if n == 11 {
        String::from_str("eleven pipers piping")
    } else if n == 12 {
        String::from_str("twelve drummers drumming")
    } else {
        String::from_str("???")
    }
}

/// Returns the ordinal name of day `n`.
pub fn ordinal(n: u8) -> (r: String)
    ensures
        r@ == spec_ordinal(n),
{
    if n == 1 {
        String::from_str("first")
    } else if n == 2 {
        String::from_str("second")
    } else if n == 3 {
        String::from_str("third")
    } else if n == 4 {
        String::from_str("fourth")
    } else if n == 5 {
        String::from_str("fifth")
    } else if n == 6 {
        String::from_str("sixth")
    } else if n == 7 {
        String::from_str("seventh")
    } else if n == 8 {
        String::from_str("eighth")
    } else if n == 9 {
        String::from_str("ninth")
    } else if n == 10 {
        String::from_str("tenth")
    } else if n == 11 {
        String::from_str("eleventh")
    } else if n == 12 {
        String::from_str("twelfth")
    } else {
        String::from_str("???")
    }
}

/// Builds the whole carol, verse by verse.
pub fn the_twelve_days_of_christmas() -> (r: String)
    ensures
        r@ == spec_poem(12),
{
    let mut poem = String::new();
    proof {
        assert(spec_poem(0) =~= Seq::<char>::empty());
    }
    for day in 1..13u8
        invariant
            poem@ == spec_poem(day as int - 1),
    {
        let ghost base = poem@;
        poem.append("On the ");
        let o = ordinal(day);
        poem.append(o.as_str());
        poem.append(" day of Christmas my true love sent to me\n");
        let ghost head = poem@;
        let mut prev: u8 = day;
        while prev >= 2
            invariant
                1 <= prev,
                prev <= day,
                poem@ + spec_gifts(prev as int) == head + spec_gifts(day as int),
            decreases prev,
        {
            let ghost before = poem@;
            let p = present(prev);
            poem.append(p.as_str());
            poem.append(",\n");
            proof {
                assert(poem@ + spec_gifts(prev as int - 1) =~= before + spec_gifts(
                    prev as int,
                ));
            }
            prev = prev - 1;
        }
        proof {
            assert(spec_gifts(1) =~= Seq::<char>::empty());
            assert(poem@ + spec_gifts(1) =~= poem@);
        }
        if day > 1 {
            poem.append("and ");
        }
        let p1 = present(1);
        poem.append(p1.as_str());
        poem.append(".\n\n");
        proof {
            assert(poem@ =~= base + spec_verse(day as int));
        }
    }
    poem
}

} // verus!
