//! A verified kit of small components around one core: a fixed-size
//! worker-pool dispatch protocol ([`pool`]), with line searching
//! ([`grep`], [`grep_filter`]), text statistics and games ([`stats`],
//! [`pig_latin`], [`carol`]), a company roster driven by text commands
//! ([`roster`]), Fibonacci numbers ([`fib`]), generic maxima
//! ([`largest`]), a typed blog-post workflow ([`blog`], [`blog_typed`]),
//! and the pure half of a tiny web server ([`http`]).

pub mod blog;
pub mod blog_typed;
pub mod carol;
pub mod fib;
pub mod grep;
pub mod grep_filter;
pub mod http;
pub mod largest;
pub mod pig_latin;
pub mod pool;
pub mod roster;
pub mod stats;
pub mod text;

use vstd::prelude::*;

verus! {

/// Returns its argument plus two.
pub fn add_two(x: i32) -> (r: i32)
    requires
        x + 2 <= i32::MAX,
    ensures
        r == x + 2,
{
    x + 2
}

} // verus!
