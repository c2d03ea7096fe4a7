//! The lyrics of "The Twelve Days of Christmas", assembled from the
//! repetition in the song.

use vstd::prelude::*;
use vstd::string::StringExecFns;

verus! {

/// The gift named on day `n`.
pub open spec fn gift_text(n: u32) -> Seq<char> {
    if n == 1 {
        "A partridge in a pear tree"@
    } else if n == 2 {
        "Two turtle doves, and"@
    } else if n == 3 {
        "Three french hens"@
    } else if n == 4 {
        "Four calling birds"@
    } else if n == 5 {
        "Five golden rings"@
    } else if n == 6 {
        "Six geese a-laying"@
    } else if n == 7 {
        "Seven swans a-swimming"@
    } else if n == 8 {
        "Eight maids a-milking"@
    } else if n == 9 {
        "Nine ladies dancing"@
    } else if n == 10 {
        "Ten lords a-leaping"@
    } else if n == 11 {
        "Eleven pipers piping"@
    } else if n == 12 {
        "Twelve drummers drumming"@
    } else {
        Seq::empty()
    }
}

/// The ordinal name of day `n`.
pub open spec fn day_text(n: u32) -> Seq<char> {
    if n == 1 {
        "first"@
    } else if n == 2 {
        "second"@
    } else if n == 3 {
        "third"@
    } else if n == 4 {
        "fourth"@
    } else if n == 5 {
        "fifth"@
    } else if n == 6 {
        "sixth"@
    } else if n == 7 {
        "seventh"@
    } else if n == 8 {
        "eighth"@
    } else if n == 9 {
        "ninth"@
    } else if n == 10 {
        "tenth"@
    } else if n == 11 {
        "eleventh"@
    } else if n == 12 {
        "twelfth"@
    } else {
        Seq::empty()
    }
}

/// The gifts of day `n` down to day one, one per line.
pub open spec fn gifts_text(n: u32) -> Seq<char>
    decreases n,
{
    if n <= 1 {
        gift_text(1)
    } else {
        gift_text(n) + "\n"@ + gifts_text((n - 1) as u32)
    }
}

/// The whole verse of day `n`, closed by a full stop.
pub open spec fn verse_text(n: u32) -> Seq<char> {
    "On the "@ + day_text(n) + " day of Christmas, my true love sent to me\n"@ + gifts_text(n)
        + "."@
}

/// The verses of day one up to day `n`, separated by blank lines.
pub open spec fn verses_text(n: u32) -> Seq<char>
    decreases n,
{
    if n <= 1 {
        verse_text(1)
    } else {
        verses_text((n - 1) as u32) + "\n\n"@ + verse_text(n)
    }
}

/// The full song.
pub open spec fn song_text() -> Seq<char> {
    verses_text(12)
}

/// The gift named on day `n`.
pub fn gift(n: u32) -> (r: &'static str)
    requires
        1 <= n <= 12,
    ensures
        r@ == gift_text(n),
{
    match n {
        1 => "A partridge in a pear tree",
        2 => "Two turtle doves, and",
        3 => "Three french hens",
        4 => "Four calling birds",
        5 => "Five golden rings",
        6 => "Six geese a-laying",
        7 => "Seven swans a-swimming",
        8 => "Eight maids a-milking",
        9 => "Nine ladies dancing",
        10 => "Ten lords a-leaping",
        11 => "Eleven pipers piping",
        _ => "Twelve drummers drumming",
    }
}

/// The ordinal name of day `n`.
pub fn day(n: u32) -> (r: &'static str)
    requires
        1 <= n <= 12,
    ensures
        r@ == day_text(n),
{
    match n {
        1 => "first",
        2 => "second",
        3 => "third",
        4 => "fourth",
        5 => "fifth",
        6 => "sixth",
        7 => "seventh",
        8 => "eighth",
        9 => "ninth",
        10 => "tenth",
        11 => "eleventh",
        _ => "twelfth",
    }
}

/// The gifts of day `n` down to day one, one per line.
pub fn gifts(n: u32) -> (r: String)
    requires
        1 <= n <= 12,
    ensures
        r@ == gifts_text(n),
{
    let mut out = String::new();
    let mut i = n;
    while i > 1
        invariant
            1 <= i <= n <= 12,
            gifts_text(n) =~= out@ + gifts_text(i),
        decreases i,
    {
        out.append(gift(i));
        out.append("\n");
        i = i - 1;
    }
    out.append(gift(1));
    out
}

/// The whole verse of day `n`.
pub fn verse(n: u32) -> (r: String)
    requires
        1 <= n <= 12,
    ensures
        r@ == verse_text(n),
{
    let mut out = String::new();
    out.append("On the ");
    out.append(day(n));
    out.append(" day of Christmas, my true love sent to me\n");
    let g = gifts(n);
    out.append(g.as_str());
    out.append(".");
    out
}

/// The full song, from the first day to the twelfth.
pub fn song() -> (r: String)
    ensures
        r@ == song_text(),
{
    let mut out = verse(1);
    let mut i: u32 = 2;
    while i <= 12
        invariant
            2 <= i <= 13,
            out@ =~= verses_text((i - 1) as u32),
        decreases 13 - i,
    {
        out.append("\n\n");
        let v = verse(i);
        out.append(v.as_str());
        i = i + 1;
    }
    out
}

} // verus!
