//! The bodies of the HTTP server's answers that the library computes: query
//! statistics, the health answer, and the base64 text of byte values.
use crate::query::QueryStats;
use crate::text::push_char;
use vstd::prelude::*;

verus! {

/// The query statistics of an answer.
#[derive(Debug, Clone, Copy, PartialEq, Eq, Structural)]
pub struct QueryStatsResponse {
    pub vertices_visited: usize,
    pub edges_traversed: usize,
    pub cache_hits: usize,
    pub cache_misses: usize,
}

impl QueryStatsResponse {
    /// The counters of a query's statistics.
    pub fn from_stats(stats: &QueryStats) -> (r: QueryStatsResponse)
        ensures
            r == (QueryStatsResponse {
                vertices_visited: stats.vertices_visited,
                edges_traversed: stats.edges_traversed,
                cache_hits: stats.cache_hits,
                cache_misses: stats.cache_misses,
            }),
    {
        QueryStatsResponse {
            vertices_visited: stats.vertices_visited,
            edges_traversed: stats.edges_traversed,
            cache_hits: stats.cache_hits,
            cache_misses: stats.cache_misses,
        }
    }
}

/// The answer of the health check.
#[derive(Debug, Clone)]
pub struct HealthResponse {
    pub status: String,
    pub database_status: String,
    pub uptime_seconds: u64,
    pub active_connections: u64,
}

impl HealthResponse {
    /// The health check's answer: status `healthy`, database `active`, no
    /// uptime tracked and one connection.
    pub fn healthy() -> (r: HealthResponse)
        ensures
            r.status@ == "healthy"@,
            r.database_status@ == "active"@,
            r.uptime_seconds == 0,
            r.active_connections == 1,
    {
        HealthResponse {
            status: String::from_str("healthy"),
            database_status: String::from_str("active"),
            uptime_seconds: 0,
            active_connections: 1,
        }
    }
}

/// The 64 digits of base64, in order of value.
pub open spec fn b64_alphabet() -> Seq<char> {
    seq![
        'A', 'B', 'C', 'D', 'E', 'F', 'G', 'H', 'I', 'J', 'K', 'L', 'M', 'N', 'O', 'P',
        'Q', 'R', 'S', 'T', 'U', 'V', 'W', 'X', 'Y', 'Z', 'a', 'b', 'c', 'd', 'e', 'f',
        'g', 'h', 'i', 'j', 'k', 'l', 'm', 'n', 'o', 'p', 'q', 'r', 's', 't', 'u', 'v',
        'w', 'x', 'y', 'z', '0', '1', '2', '3', '4', '5', '6', '7', '8', '9', '+', '/',
    ]
}

/// The base64 text of one group of 1 to 3 bytes: four digits, the missing
/// bytes counted as zero and their digits written as `=`.
pub open spec fn b64_group(g: Seq<u8>) -> Seq<char> {
    let b1 = g[0] as int;
    let b2 = if g.len() > 1 { g[1] as int } else { 0 };
    let b3 = if g.len() > 2 { g[2] as int } else { 0 };
    seq![
        b64_alphabet()[b1 / 4],
        b64_alphabet()[(b1 % 4) * 16 + b2 / 16],
        if g.len() > 1 { b64_alphabet()[(b2 % 16) * 4 + b3 / 64] } else { '=' },
        if g.len() > 2 { b64_alphabet()[b3 % 64] } else { '=' },
    ]
}

/// The base64 text of bytes: their groups of three, in order, each written
/// as four digits.
pub open spec fn base64_of(bytes: Seq<u8>) -> Seq<char>
    decreases bytes.len(),
{
    if bytes.len() == 0 {
        Seq::empty()
    } else if bytes.len() <= 3 {
        b64_group(bytes)
    } else {
        b64_group(bytes.take(3)) + base64_of(bytes.skip(3))
    }
}

/// Base64 text is four digits for every started group of three bytes.
pub proof fn lemma_base64_len(bytes: Seq<u8>)
    ensures
        base64_of(bytes).len() == 4 * ((bytes.len() + 2) / 3),
    decreases bytes.len(),
{
    if bytes.len() > 3 {
        lemma_base64_len(bytes.skip(3));
    }
}

/// The base64 digit of value `k`.
fn b64_digit(k: u32) -> (c: char)
    requires
        k < 64,
    ensures
        c == b64_alphabet()[k as int],
{
    let table: [char; 64] = [
        'A', 'B', 'C', 'D', 'E', 'F', 'G', 'H', 'I', 'J', 'K', 'L', 'M', 'N', 'O', 'P',
        'Q', 'R', 'S', 'T', 'U', 'V', 'W', 'X', 'Y', 'Z', 'a', 'b', 'c', 'd', 'e', 'f',
        'g', 'h', 'i', 'j', 'k', 'l', 'm', 'n', 'o', 'p', 'q', 'r', 's', 't', 'u', 'v',
        'w', 'x', 'y', 'z', '0', '1', '2', '3', '4', '5', '6', '7', '8', '9', '+', '/',
    ];
    assert(table@ =~= b64_alphabet());
    table[k as usize]
}

/// Base64 (standard alphabet, `=` padding) of the bytes.
pub fn base64_encode(bytes: &[u8]) -> (r: String)
    ensures
        r@ == base64_of(bytes@),
{
    let mut result = String::new();
    let mut i: usize = 0;
    proof {
        assert(bytes@.skip(0) =~= bytes@);
        assert(result@ + base64_of(bytes@) =~= base64_of(bytes@));
    }
    while i < bytes.len()
        invariant
            i <= bytes@.len(),
            result@ + base64_of(bytes@.skip(i as int)) == base64_of(bytes@),
        decreases bytes@.len() - i,
    {
        let ghost rest = bytes@.skip(i as int);
        let b1 = bytes[i];
        let b2 = if bytes.len() - i > 1 { bytes[i + 1] } else { 0 };
        let b3 = if bytes.len() - i > 2 { bytes[i + 2] } else { 0 };
        let triple: u32 = ((b1 as u32) << 16) | ((b2 as u32) << 8) | (b3 as u32);
        proof {
            assert((triple >> 18) & 63 == b1 / 4 && (triple >> 12) & 63 == (b1 % 4) * 16 + b2 / 16 && (triple >> 6) & 63
                == (b2 % 16) * 4 + b3 / 64 && triple & 63 == b3 % 64) by (bit_vector)
                requires
                    triple == ((b1 as u32) << 16) | ((b2 as u32) << 8) | (b3 as u32),
            ;
        }
        let c1 = b64_digit((triple >> 18) & 63);
        let c2 = b64_digit((triple >> 12) & 63);
        let c3 = if bytes.len() - i > 1 {
            b64_digit((triple >> 6) & 63)
        } else {
            '='
        };
        let c4 = if bytes.len() - i > 2 {
            b64_digit(triple & 63)
        } else {
            '='
        };
        let ghost before = result@;
        push_char(&mut result, c1);
        push_char(&mut result, c2);
        push_char(&mut result, c3);
        push_char(&mut result, c4);
        proof {
            let g = if rest.len() <= 3 { rest } else { rest.take(3) };
            assert(g[0] == b1);
            assert(g.len() > 1 ==> g[1] == b2);
            assert(g.len() > 2 ==> g[2] == b3);
            assert(result@ =~= before + b64_group(g));
            if rest.len() <= 3 {
                assert(base64_of(rest) == b64_group(rest));
                assert(bytes@.skip(bytes@.len() as int) =~= Seq::<u8>::empty());
                assert(result@ + base64_of(bytes@.skip(bytes@.len() as int)) =~= result@);
            } else {
                assert(rest.skip(3) =~= bytes@.skip(i + 3));
                assert(base64_of(rest) == b64_group(rest.take(3)) + base64_of(rest.skip(3)));
                assert(result@ + base64_of(bytes@.skip(i + 3)) =~= before + base64_of(rest));
            }
        }
        if bytes.len() - i > 3 {
            i = i + 3;
        } else {
            i = bytes.len();
        }
    }
    proof {
        assert(bytes@.skip(i as int) =~= Seq::<u8>::empty());
        assert(result@ + Seq::<char>::empty() =~= result@);
    }
    result
}

} // verus!
