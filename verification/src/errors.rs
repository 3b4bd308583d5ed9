//! Boundary error representation: a stable `(code, message)` pair whose code
//! matches the HTTP status that a handler would answer with, and the
//! classifier that maps storage-layer failures onto it.

use vstd::prelude::*;
use vstd::string::{StrSliceExecFns, StringExecFns};
use vstd::utf8::encode_utf8;

verus! {

/// The sole cross-boundary failure value.
#[derive(Clone, Debug)]
pub struct Error {
    pub code: u16,
    pub msg: String,
}

pub const BAD_REQUEST: u16 = 400;

pub const UNAUTHORIZED: u16 = 401;

pub const FORBIDDEN: u16 = 403;

pub const NOT_FOUND: u16 = 404;

pub const INTERNAL_SERVER_ERROR: u16 = 500;

pub fn badrequest(msg: &str) -> (r: Error)
    ensures
        r.code == BAD_REQUEST,
        r.msg@ == msg@,
{
    Error { code: BAD_REQUEST, msg: msg.to_owned() }
}

pub fn unauthorized(msg: &str) -> (r: Error)
    ensures
        r.code == UNAUTHORIZED,
        r.msg@ == msg@,
{
    Error { code: UNAUTHORIZED, msg: msg.to_owned() }
}

pub fn forbidden(msg: &str) -> (r: Error)
    ensures
        r.code == FORBIDDEN,
        r.msg@ == msg@,
{
    Error { code: FORBIDDEN, msg: msg.to_owned() }
}

pub fn notfound(msg: &str) -> (r: Error)
    ensures
        r.code == NOT_FOUND,
        r.msg@ == msg@,
{
    Error { code: NOT_FOUND, msg: msg.to_owned() }
}

pub fn internal_server_error(msg: &str) -> (r: Error)
    ensures
        r.code == INTERNAL_SERVER_ERROR,
        r.msg@ == msg@,
{
    Error { code: INTERNAL_SERVER_ERROR, msg: msg.to_owned() }
}

/// What the storage layer reports when an operation fails: the resource was
/// absent, a uniqueness constraint was violated (with the engine's table and
/// constraint identifiers, where it gave them), or something else went wrong.
#[derive(Debug)]
pub enum StoreError {
    NotFound,
    UniqueViolation { table: Option<String>, constraint: Option<String> },
    Other,
}

/// The byte sequence with every occurrence of `p` stripped from the front.
pub open spec fn strip_prefix_rep(b: Seq<u8>, p: Seq<u8>) -> Seq<u8>
    decreases b.len(),
{
    if p.len() > 0 && b.len() >= p.len() && b.subrange(0, p.len() as int) == p {
        strip_prefix_rep(b.subrange(p.len() as int, b.len() as int), p)
    } else {
        b
    }
}

/// The byte sequence with every occurrence of `p` stripped from the back.
pub open spec fn strip_suffix_rep(b: Seq<u8>, p: Seq<u8>) -> Seq<u8>
    decreases b.len(),
{
    if p.len() > 0 && b.len() >= p.len() && b.subrange(b.len() - p.len(), b.len() as int) == p {
        strip_suffix_rep(b.subrange(0, b.len() - p.len()), p)
    } else {
        b
    }
}

/// Whether two byte ranges agree; helper for the strip loops.
#[verifier::loop_isolation(false)]
fn range_eq(b: &Vec<u8>, from: usize, p: &Vec<u8>) -> (r: bool)
    requires
        from + p@.len() <= b@.len(),
    ensures
        r == (b@.subrange(from as int, from + p@.len()) == p@),
{
    let bl = b.len();
    let mut k: usize = 0;
    while k < p.len()
        invariant
            k <= p@.len(),
            bl == b@.len(),
            from + p@.len() <= b@.len(),
            forall|j: int| 0 <= j < k ==> b@[from + j] == p@[j],
        decreases p@.len() - k,
    {
        if b[from + k] != p[k] {
            proof {
                assert(b@.subrange(from as int, from + p@.len())[k as int] != p@[k as int]);
            }
            return false;
        }
        k = k + 1;
    }
    proof {
        assert(b@.subrange(from as int, from + p@.len()) =~= p@);
    }
    true
}

/// Strip every occurrence of `p` from the front of `b`.
#[verifier::loop_isolation(false)]
fn strip_prefix_repeated(b: &Vec<u8>, p: &Vec<u8>) -> (r: Vec<u8>)
    ensures
        r@ == strip_prefix_rep(b@, p@),
{
    if p.len() == 0 {
        return b.clone();
    }
    let mut pos: usize = 0;
    proof {
        assert(b@.subrange(0, b@.len() as int) =~= b@);
    }
    loop
        invariant
            p@.len() > 0,
            pos <= b@.len(),
            strip_prefix_rep(b@, p@) == strip_prefix_rep(
                b@.subrange(pos as int, b@.len() as int),
                p@,
            ),
        decreases b@.len() - pos,
    {
        let ghost cur = b@.subrange(pos as int, b@.len() as int);
        if b.len() - pos >= p.len() && range_eq(b, pos, p) {
            proof {
                assert(cur.subrange(0, p@.len() as int) =~= b@.subrange(
                    pos as int,
                    pos + p@.len(),
                ));
                assert(cur.subrange(p@.len() as int, cur.len() as int) =~= b@.subrange(
                    pos + p@.len(),
                    b@.len() as int,
                ));
            }
            pos = pos + p.len();
        } else {
            proof {
                if cur.len() >= p@.len() {
                    assert(b@.subrange(pos as int, pos + p@.len()) =~= cur.subrange(
                        0,
                        p@.len() as int,
                    ));
                }
                assert(strip_prefix_rep(cur, p@) == cur);
            }
            break ;
        }
    }
    let s = vstd::slice::slice_subrange(b.as_slice(), pos, b.len());
    let r = vstd::slice::slice_to_vec(s);
    proof {
        assert(r@ =~= b@.subrange(pos as int, b@.len() as int));
    }
    r
}

/// Strip every occurrence of `p` from the back of `b`.
#[verifier::loop_isolation(false)]
fn strip_suffix_repeated(b: &Vec<u8>, p: &Vec<u8>) -> (r: Vec<u8>)
    ensures
        r@ == strip_suffix_rep(b@, p@),
{
    if p.len() == 0 {
        return b.clone();
    }
    let mut end: usize = b.len();
    proof {
        assert(b@.subrange(0, b@.len() as int) =~= b@);
    }
    loop
        invariant
            p@.len() > 0,
            end <= b@.len(),
            strip_suffix_rep(b@, p@) == strip_suffix_rep(b@.subrange(0, end as int), p@),
        decreases end,
    {
        let ghost cur = b@.subrange(0, end as int);
        if end >= p.len() && range_eq(b, end - p.len(), p) {
            proof {
                assert(cur.subrange(cur.len() - p@.len(), cur.len() as int) =~= b@.subrange(
                    end - p@.len(),
                    end as int,
                ));
                assert(cur.subrange(0, cur.len() - p@.len()) =~= b@.subrange(
                    0,
                    end - p@.len(),
                ));
            }
            end = end - p.len();
        } else {
            proof {
                if cur.len() >= p@.len() {
                    assert(b@.subrange(end - p@.len(), end as int) =~= cur.subrange(
                        cur.len() - p@.len(),
                        cur.len() as int,
                    ));
                }
                assert(strip_suffix_rep(cur, p@) == cur);
            }
            break ;
        }
    }
    let s = vstd::slice::slice_subrange(b.as_slice(), 0, end);
    let r = vstd::slice::slice_to_vec(s);
    proof {
        assert(r@ =~= b@.subrange(0, end as int));
    }
    r
}

/// The constraint identifier with the table-name prefix and the `_key`
/// suffix stripped: `users_username_key` under table `users` becomes
/// `username`.
pub open spec fn trimmed_constraint(table: Seq<u8>, constraint: Seq<u8>) -> Seq<u8> {
    strip_suffix_rep(
        strip_prefix_rep(constraint, table + seq![95u8]),
        seq![95u8, 107u8, 101u8, 121u8],
    )
}

/// The message of a classified uniqueness violation, as characters.
pub open spec fn duplicate_msg(table: Option<Seq<char>>, constraint: Option<Seq<char>>) -> Seq<
    char,
> {
    let t = match table {
        Some(t) => t,
        None => "table"@,
    };
    let c = match constraint {
        Some(c) => c,
        None => "data"@,
    };
    if crate::text::all_ascii(encode_utf8(t)) && crate::text::all_ascii(encode_utf8(c)) {
        "duplicate "@ + crate::text::chars_of_bytes(
            trimmed_constraint(encode_utf8(t), encode_utf8(c)),
        )
    } else {
        "duplicate data"@
    }
}

/// The view of an optional string.
pub open spec fn opt_view(s: &Option<String>) -> Option<Seq<char>> {
    match s {
        Some(v) => Some(v@),
        None => None,
    }
}

/// Whether a byte vector holds ASCII codes only.
fn check_ascii(b: &Vec<u8>) -> (r: bool)
    ensures
        r == crate::text::all_ascii(b@),
{
    let mut i: usize = 0;
    while i < b.len()
        invariant
            i <= b@.len(),
            forall|k: int| 0 <= k < i ==> #[trigger] b@[k] < 128,
        decreases b@.len() - i,
    {
        if b[i] >= 128 {
            proof {
                assert(!crate::text::all_ascii(b@));
            }
            return false;
        }
        i = i + 1;
    }
    true
}

/// Classify a storage failure into the boundary error taxonomy: absent data
/// is `404 data not found`; a uniqueness violation is `400 duplicate <field>`
/// with the field derived best-effort from the constraint identifier, or
/// `duplicate data` where the naming convention is unknown; anything else is
/// `500 database operation failure`.
#[verifier::loop_isolation(false)]
pub fn classify_store_error(err: &StoreError) -> (r: Error)
    ensures
        match err {
            StoreError::NotFound => r.code == NOT_FOUND && r.msg@ =~= "data not found"@,
            StoreError::UniqueViolation { table, constraint } => r.code == BAD_REQUEST && r.msg@
                =~= duplicate_msg(opt_view(table), opt_view(constraint)),
            StoreError::Other => r.code == INTERNAL_SERVER_ERROR && r.msg@
                =~= "database operation failure"@,
        },
{
    broadcast use vstd::string::is_ascii_spec_bytes;

    match err {
        StoreError::NotFound => notfound("data not found"),
        StoreError::Other => internal_server_error("database operation failure"),
        StoreError::UniqueViolation { table, constraint } => {
            let t: &str = match table {
                Some(t) => t.as_str(),
                None => "table",
            };
            let c: &str = match constraint {
                Some(c) => c.as_str(),
                None => "data",
            };
            let tb = t.as_bytes_vec();
            let cb = c.as_bytes_vec();
            if !check_ascii(&tb) || !check_ascii(&cb) {
                return badrequest("duplicate data");
            }
            let mut prefix = tb;
            prefix.push(95);
            let suffix_key: Vec<u8> = vec![95u8, 107u8, 101u8, 121u8];
            let trimmed = strip_suffix_repeated(&strip_prefix_repeated(&cb, &prefix), &suffix_key);
            proof {
                assert(prefix@ =~= encode_utf8(t@) + seq![95u8]);
                assert(suffix_key@ =~= seq![95u8, 107u8, 101u8, 121u8]);
                crate::errors::lemma_trimmed_ascii(encode_utf8(t@) + seq![95u8], encode_utf8(c@));
            }
            let name = crate::text::ascii_string(trimmed);
            let mut msg = "duplicate ".to_owned();
            msg.append(name.as_str());
            Error { code: BAD_REQUEST, msg }
        },
    }
}

/// Stripping affixes from an ASCII sequence leaves an ASCII sequence.
pub proof fn lemma_trimmed_ascii(p: Seq<u8>, c: Seq<u8>)
    requires
        crate::text::all_ascii(c),
    ensures
        crate::text::all_ascii(
            strip_suffix_rep(strip_prefix_rep(c, p), seq![95u8, 107u8, 101u8, 121u8]),
        ),
{
    lemma_strip_prefix_ascii(c, p);
    lemma_strip_suffix_ascii(strip_prefix_rep(c, p), seq![95u8, 107u8, 101u8, 121u8]);
}

proof fn lemma_strip_prefix_ascii(b: Seq<u8>, p: Seq<u8>)
    requires
        crate::text::all_ascii(b),
    ensures
        crate::text::all_ascii(strip_prefix_rep(b, p)),
    decreases b.len(),
{
    if p.len() > 0 && b.len() >= p.len() && b.subrange(0, p.len() as int) == p {
        assert(crate::text::all_ascii(b.subrange(p.len() as int, b.len() as int)));
        lemma_strip_prefix_ascii(b.subrange(p.len() as int, b.len() as int), p);
    }
}

proof fn lemma_strip_suffix_ascii(b: Seq<u8>, p: Seq<u8>)
    requires
        crate::text::all_ascii(b),
    ensures
        crate::text::all_ascii(strip_suffix_rep(b, p)),
    decreases b.len(),
{
    if p.len() > 0 && b.len() >= p.len() && b.subrange(b.len() - p.len(), b.len() as int) == p {
        assert(crate::text::all_ascii(b.subrange(0, b.len() - p.len())));
        lemma_strip_suffix_ascii(b.subrange(0, b.len() - p.len()), p);
    }
}

/// The decimal digits of a number, as ASCII bytes.
pub open spec fn dec_bytes(n: nat) -> Seq<u8>
    decreases n,
{
    if n < 10 {
        seq![(48 + n) as u8]
    } else {
        dec_bytes(n / 10).push((48 + n % 10) as u8)
    }
}

proof fn lemma_dec_bytes_ascii(n: nat)
    ensures
        crate::text::all_ascii(dec_bytes(n)),
        dec_bytes(n).len() >= 1,
    decreases n,
{
    if n < 10 {
    } else {
        lemma_dec_bytes_ascii(n / 10);
    }
}

/// Append the decimal digits of `n` to `out`.
fn push_dec(n: u16, out: &mut Vec<u8>)
    ensures
        final(out)@ == old(out)@ + dec_bytes(n as nat),
    decreases n,
{
    if n < 10 {
        out.push(48 + n as u8);
        proof {
            assert(out@ =~= old(out)@ + dec_bytes(n as nat));
        }
    } else {
        push_dec(n / 10, out);
        out.push(48 + (n % 10) as u8);
        proof {
            assert(out@ =~= old(out)@ + dec_bytes(n as nat));
        }
    }
}

/// Whether a message can be spliced into a JSON string literal verbatim:
/// judged on its UTF-8 bytes, which must hold no quote, backslash or
/// control code.
pub open spec fn json_clean(b: Seq<u8>) -> bool {
    forall|i: int| 0 <= i < b.len() ==> #[trigger] b[i] != 34 && b[i] != 92 && b[i] >= 32
}

/// The exact JSON body that an error renders to.
pub open spec fn body_json_spec(code: u16, msg: Seq<char>) -> Seq<char> {
    "{\"code\":"@ + crate::text::chars_of_bytes(dec_bytes(code as nat)) + ",\"msg\":\""@ + (if
        json_clean(encode_utf8(msg)) {
        msg
    } else {
        Seq::<char>::empty()
    }) + "\"}"@
}

impl Error {
    /// Render the boundary JSON body `{"code":<code>,"msg":"<msg>"}`.
    /// A message that would break the JSON framing is left out.
    pub fn body_json(&self) -> (r: String)
        ensures
            r@ == body_json_spec(self.code, self.msg@),
    {
        broadcast use vstd::string::is_ascii_spec_bytes;

        let mut digits: Vec<u8> = Vec::new();
        push_dec(self.code, &mut digits);
        proof {
            lemma_dec_bytes_ascii(self.code as nat);
            assert(digits@ =~= dec_bytes(self.code as nat));
        }
        let code_str = crate::text::ascii_string(digits);
        let mb = self.msg.as_str().as_bytes_vec();
        let clean = {
            let mut i: usize = 0;
            let mut ok = true;
            while i < mb.len()
                invariant
                    i <= mb@.len(),
                    ok == (forall|k: int|
                        0 <= k < i ==> #[trigger] mb@[k] != 34 && mb@[k] != 92 && mb@[k] >= 32),
                decreases mb@.len() - i,
            {
                if mb[i] == 34 || mb[i] == 92 || mb[i] < 32 {
                    ok = false;
                }
                i = i + 1;
            }
            ok
        };
        let mut out = "{\"code\":".to_owned();
        out.append(code_str.as_str());
        out.append(",\"msg\":\"");
        if clean {
            proof {
                assert(json_clean(encode_utf8(self.msg@)));
            }
            out.append(self.msg.as_str());
        } else {
            proof {
                assert(!json_clean(encode_utf8(self.msg@)));
            }
        }
        out.append("\"}");
        out
    }
}

} // verus!
