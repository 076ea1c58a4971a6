//! The claims payload carried inside a signed token, as JSON text.
//!
//! The writer emits one fixed layout; the reader accepts exactly that layout
//! (it re-renders what it read and compares), so reading is the inverse of
//! writing on well-formed claims.
use vstd::prelude::*;

verus! {

/// Mathematical view of a claims record.
pub struct ClaimsModel {
    pub exp: int,
    pub iat: int,
    pub sub: Seq<char>,
    pub id: nat,
    pub public_token: Option<Seq<char>>,
}

/// A claims record: expiry and issue time in seconds, a subject marker, the
/// upstream user id and, for a challenge, the public token.
pub struct Claims {
    pub exp: i64,
    pub iat: i64,
    pub sub: Vec<char>,
    pub id: u64,
    pub public_token: Option<Vec<char>>,
}

pub open spec fn opt_view(o: Option<Vec<char>>) -> Option<Seq<char>> {
    match o {
        Some(v) => Some(v@),
        None => None,
    }
}

impl View for Claims {
    type V = ClaimsModel;

    open spec fn view(&self) -> ClaimsModel {
        ClaimsModel {
            exp: self.exp as int,
            iat: self.iat as int,
            sub: self.sub@,
            id: self.id as nat,
            public_token: opt_view(self.public_token),
        }
    }
}

pub open spec fn is_word_char(c: char) -> bool {
    ('0' <= c && c <= '9') || ('a' <= c && c <= 'z') || ('A' <= c && c <= 'Z') || c == '_'
}

/// Text that needs no escaping inside a JSON string.
pub open spec fn is_plain(s: Seq<char>) -> bool {
    forall|k: int| 0 <= k < s.len() ==> is_word_char(#[trigger] s[k])
}

pub open spec fn claims_wf(m: ClaimsModel) -> bool {
    i64::MIN <= m.exp <= i64::MAX && i64::MIN <= m.iat <= i64::MAX && m.id <= u64::MAX
        && is_plain(m.sub) && match m.public_token {
        Some(t) => is_plain(t),
        None => true,
    }
}

pub open spec fn is_digit(c: char) -> bool {
    '0' <= c && c <= '9'
}

pub open spec fn digit_of(d: nat) -> char {
    if d == 0 { '0' } else if d == 1 { '1' } else if d == 2 { '2' } else if d == 3 { '3' }
    else if d == 4 { '4' } else if d == 5 { '5' } else if d == 6 { '6' } else if d == 7 { '7' }
    else if d == 8 { '8' } else { '9' }
}

pub open spec fn value_of(c: char) -> nat {
    if c == '1' { 1 } else if c == '2' { 2 } else if c == '3' { 3 } else if c == '4' { 4 }
    else if c == '5' { 5 } else if c == '6' { 6 } else if c == '7' { 7 } else if c == '8' { 8 }
    else if c == '9' { 9 } else { 0 }
}

/// Decimal digits of a natural number, without leading zeros.
pub open spec fn nat_text(n: nat) -> Seq<char>
    decreases n,
{
    if n < 10 {
        seq![digit_of(n)]
    } else {
        nat_text(n / 10).push(digit_of(n % 10))
    }
}

pub open spec fn int_text(n: int) -> Seq<char> {
    if n < 0 {
        seq!['-'] + nat_text((-n) as nat)
    } else {
        nat_text(n as nat)
    }
}

pub open spec fn lit_exp() -> Seq<char> {
    seq!['{', '"', 'e', 'x', 'p', '"', ':']
}

pub open spec fn lit_iat() -> Seq<char> {
    seq![',', '"', 'i', 'a', 't', '"', ':']
}

pub open spec fn lit_sub() -> Seq<char> {
    seq![',', '"', 's', 'u', 'b', '"', ':', '"']
}

pub open spec fn lit_id() -> Seq<char> {
    seq!['"', ',', '"', 'i', 'd', '"', ':']
}

pub open spec fn lit_token() -> Seq<char> {
    seq![',', '"', 'p', 'u', 'b', 'l', 'i', 'c', '_', 't', 'o', 'k', 'e', 'n', '"', ':', '"']
}

pub open spec fn lit_end_token() -> Seq<char> {
    seq!['"', '}']
}

pub open spec fn lit_end() -> Seq<char> {
    seq!['}']
}

pub open spec fn tail_text(t: Option<Seq<char>>) -> Seq<char> {
    match t {
        Some(s) => lit_token() + s + lit_end_token(),
        None => lit_end(),
    }
}

/// `{"exp":E,"iat":I,"sub":"S","id":N}`, with `,"public_token":"T"` before the
/// closing brace when a public token is present.
pub open spec fn claims_text(m: ClaimsModel) -> Seq<char> {
    lit_exp() + int_text(m.exp) + lit_iat() + int_text(m.iat) + lit_sub() + m.sub + lit_id()
        + nat_text(m.id) + tail_text(m.public_token)
}

/// Reads the run of digits from `i` on, accumulating onto `acc`: the value and
/// the index just past the run.
pub open spec fn scan_digits(t: Seq<char>, i: int, acc: nat) -> (nat, int)
    decreases t.len() - i,
{
    if 0 <= i < t.len() && is_digit(t[i]) {
        scan_digits(t, i + 1, acc * 10 + value_of(t[i]))
    } else {
        (acc, i)
    }
}

pub open spec fn nat_at(t: Seq<char>, i: int) -> Option<(int, int)> {
    let (v, e) = scan_digits(t, i, 0);
    if e == i {
        None
    } else {
        Some((v as int, e))
    }
}

pub open spec fn int_at(t: Seq<char>, i: int) -> Option<(int, int)> {
    if 0 <= i < t.len() && t[i] == '-' {
        match nat_at(t, i + 1) {
            Some((v, e)) => Some((-v, e)),
            None => None,
        }
    } else {
        nat_at(t, i)
    }
}

/// Index of the first quote at or after `i`, or the length if there is none.
pub open spec fn quote_at(t: Seq<char>, i: int) -> int
    decreases t.len() - i,
{
    if 0 <= i < t.len() && t[i] != '"' {
        quote_at(t, i + 1)
    } else {
        i
    }
}

pub open spec fn tail_at(t: Seq<char>, p: int) -> Option<Option<Seq<char>>> {
    if p < t.len() && t[p] == ',' {
        if p + 17 <= t.len() {
            let e = quote_at(t, p + 17);
            Some(Some(t.subrange(p + 17, e)))
        } else {
            None
        }
    } else {
        Some(None)
    }
}

/// Reads the fields by position, trusting the fixed separators; the reader
/// proper checks the result by rendering it again.
pub open spec fn fields_at(t: Seq<char>) -> Option<ClaimsModel> {
    if 7 <= t.len() {
        match int_at(t, 7) {
            Some((exp, p1)) => if p1 + 7 <= t.len() {
                match int_at(t, p1 + 7) {
                    Some((iat, p2)) => if p2 + 8 <= t.len() {
                        let e = quote_at(t, p2 + 8);
                        if e + 7 <= t.len() {
                            match nat_at(t, e + 7) {
                                Some((id, p3)) => match tail_at(t, p3) {
                                    Some(tok) => Some(ClaimsModel {
                                        exp,
                                        iat,
                                        sub: t.subrange(p2 + 8, e),
                                        id: id as nat,
                                        public_token: tok,
                                    }),
                                    None => None,
                                },
                                None => None,
                            }
                        } else {
                            None
                        }
                    } else {
                        None
                    },
                    None => None,
                }
            } else {
                None
            },
            None => None,
        }
    } else {
        None
    }
}

/// The claims that `t` is the text of, if any.
pub open spec fn parse_claims(t: Seq<char>) -> Option<ClaimsModel> {
    match fields_at(t) {
        Some(m) => if claims_wf(m) && claims_text(m) == t {
            Some(m)
        } else {
            None
        },
        None => None,
    }
}


/// Left-to-right decimal value of a run of digits, starting from `acc`.
pub open spec fn fold_digits(acc: nat, s: Seq<char>) -> nat
    decreases s.len(),
{
    if s.len() == 0 {
        acc
    } else {
        fold_digits(acc * 10 + value_of(s[0]), s.drop_first())
    }
}

proof fn lemma_fold_push(acc: nat, s: Seq<char>, c: char)
    ensures
        fold_digits(acc, s.push(c)) == fold_digits(acc, s) * 10 + value_of(c),
    decreases s.len(),
{
    if s.len() > 0 {
        assert(s.push(c)[0] == s[0]);
        assert(s.push(c).drop_first() =~= s.drop_first().push(c));
        lemma_fold_push(acc * 10 + value_of(s[0]), s.drop_first(), c);
    } else {
        assert(s.push(c)[0] == c);
        assert(s.push(c).drop_first() =~= Seq::<char>::empty());
        assert(fold_digits(acc * 10 + value_of(c), Seq::<char>::empty()) == acc * 10 + value_of(c));
        assert(s =~= Seq::<char>::empty());
    }
}

proof fn lemma_nat_text(n: nat)
    ensures
        nat_text(n).len() >= 1,
        fold_digits(0, nat_text(n)) == n,
        forall|k: int| 0 <= k < nat_text(n).len() ==> is_digit(#[trigger] nat_text(n)[k]),
    decreases n,
{
    if n >= 10 {
        lemma_nat_text(n / 10);
        lemma_fold_push(0, nat_text(n / 10), digit_of(n % 10));
        assert forall|k: int| 0 <= k < nat_text(n).len() implies is_digit(#[trigger] nat_text(n)[k]) by {
            if k < nat_text(n / 10).len() {
                assert(nat_text(n)[k] == nat_text(n / 10)[k]);
            }
        }
    } else {
        assert(fold_digits(0, nat_text(n)) == fold_digits(value_of(digit_of(n)), nat_text(n).drop_first()));
        assert(nat_text(n).drop_first() =~= Seq::<char>::empty());
    }
}

proof fn lemma_scan_run(t: Seq<char>, i: int, j: int, acc: nat)
    requires
        0 <= i <= j <= t.len(),
        forall|k: int| i <= k < j ==> is_digit(#[trigger] t[k]),
        j == t.len() || !is_digit(t[j]),
    ensures
        scan_digits(t, i, acc) == (fold_digits(acc, t.subrange(i, j)), j),
    decreases j - i,
{
    if i < j {
        assert(t.subrange(i, j).drop_first() =~= t.subrange(i + 1, j));
        lemma_scan_run(t, i + 1, j, acc * 10 + value_of(t[i]));
    }
}

proof fn lemma_nat_at(t: Seq<char>, i: int, n: nat)
    requires
        0 <= i,
        i + nat_text(n).len() <= t.len(),
        t.subrange(i, i + nat_text(n).len()) == nat_text(n),
        i + nat_text(n).len() == t.len() || !is_digit(t[i + nat_text(n).len()]),
    ensures
        nat_at(t, i) == Some((n as int, i + nat_text(n).len())),
{
    lemma_nat_text(n);
    let j = i + nat_text(n).len();
    assert forall|k: int| i <= k < j implies is_digit(#[trigger] t[k]) by {
        assert(t[k] == t.subrange(i, j)[k - i]);
    }
    lemma_scan_run(t, i, j, 0);
}

proof fn lemma_int_at(t: Seq<char>, i: int, n: int)
    requires
        0 <= i,
        i + int_text(n).len() <= t.len(),
        t.subrange(i, i + int_text(n).len()) == int_text(n),
        i + int_text(n).len() == t.len() || !is_digit(t[i + int_text(n).len()]),
    ensures
        int_at(t, i) == Some((n, i + int_text(n).len())),
{
    if n < 0 {
        let m = (-n) as nat;
        assert(t[i] == int_text(n)[0]);
        assert(t.subrange(i + 1, i + 1 + nat_text(m).len()) =~= nat_text(m)) by {
            assert forall|k: int| 0 <= k < nat_text(m).len() implies t.subrange(i + 1, i + 1 + nat_text(m).len())[k] == nat_text(m)[k] by {
                assert(t[i + 1 + k] == t.subrange(i, i + int_text(n).len())[k + 1]);
            }
        }
        lemma_nat_at(t, i + 1, m);
    } else {
        lemma_nat_text(n as nat);
        assert(t[i] == nat_text(n as nat)[0]);
        lemma_nat_at(t, i, n as nat);
    }
}

proof fn lemma_quote_at(t: Seq<char>, i: int, j: int)
    requires
        0 <= i <= j < t.len(),
        forall|k: int| i <= k < j ==> #[trigger] t[k] != '"',
        t[j] == '"',
    ensures
        quote_at(t, i) == j,
    decreases j - i,
{
    if i < j {
        lemma_quote_at(t, i + 1, j);
    }
}

proof fn lemma_piece(t: Seq<char>, x: Seq<char>, y: Seq<char>, z: Seq<char>)
    requires
        t == x + y + z,
    ensures
        t.subrange(x.len() as int, x.len() + y.len() as int) == y,
        z.len() > 0 ==> t[x.len() + y.len() as int] == z[0],
        forall|k: int| 0 <= k < y.len() ==> t[x.len() + k] == #[trigger] y[k],
{
    assert(t.subrange(x.len() as int, x.len() + y.len() as int) =~= y);
}

/// Reading the text of well-formed claims gives those claims back.
#[verifier::rlimit(100)]
pub proof fn lemma_claims_round_trip(m: ClaimsModel)
    requires
        claims_wf(m),
    ensures
        parse_claims(claims_text(m)) == Some(m),
{
    let t = claims_text(m);
    let a = lit_exp();
    let b = int_text(m.exp);
    let c = lit_iat();
    let d = int_text(m.iat);
    let e = lit_sub();
    let f = m.sub;
    let g = lit_id();
    let h = nat_text(m.id);
    let r = tail_text(m.public_token);
    let p1: int = (a.len() + b.len()) as int;
    let p2: int = p1 + c.len() as int + d.len() as int;
    let q: int = p2 + e.len() as int + f.len() as int;
    let p3: int = q + g.len() as int + h.len() as int;
    assert(t == a + b + (c + d + e + f + g + h + r)) by {
        assert(t =~= a + b + (c + d + e + f + g + h + r));
    }
    lemma_piece(t, a, b, c + d + e + f + g + h + r);
    lemma_int_at(t, 7, m.exp);
    assert(t == (a + b + c) + d + (e + f + g + h + r)) by {
        assert(t =~= (a + b + c) + d + (e + f + g + h + r));
    }
    lemma_piece(t, a + b + c, d, e + f + g + h + r);
    lemma_int_at(t, p1 + 7, m.iat);
    assert(t == (a + b + c + d + e) + f + (g + h + r)) by {
        assert(t =~= (a + b + c + d + e) + f + (g + h + r));
    }
    lemma_piece(t, a + b + c + d + e, f, g + h + r);
    assert forall|k: int| p2 + 8 <= k < q implies #[trigger] t[k] != '"' by {
        assert(t[(p2 + 8) + (k - (p2 + 8))] == f[k - (p2 + 8)]);
        assert(is_word_char(f[k - (p2 + 8)]));
    }
    lemma_quote_at(t, p2 + 8, q);
    assert(t == (a + b + c + d + e + f + g) + h + r) by {
        assert(t =~= (a + b + c + d + e + f + g) + h + r);
    }
    lemma_piece(t, a + b + c + d + e + f + g, h, r);
    lemma_nat_at(t, q + 7, m.id);
    assert(fields_at(t) == Some(m)) by {
        match m.public_token {
            Some(s) => {
                let z: int = p3 + 17;
                let w = lit_end_token();
                assert(t == (a + b + c + d + e + f + g + h + lit_token()) + s + w) by {
                    assert(t =~= (a + b + c + d + e + f + g + h + lit_token()) + s + w);
                }
                lemma_piece(t, a + b + c + d + e + f + g + h + lit_token(), s, w);
                assert forall|k: int| z <= k < z + s.len() implies #[trigger] t[k] != '"' by {
                    assert(t[z + (k - z)] == s[k - z]);
                    assert(is_word_char(s[k - z]));
                }
                lemma_quote_at(t, z, z + s.len());
            },
            None => {},
        }
    }
}

proof fn lemma_scan_grows(t: Seq<char>, i: int, acc: nat)
    ensures
        scan_digits(t, i, acc).0 >= acc,
    decreases t.len() - i,
{
    if 0 <= i < t.len() && is_digit(t[i]) {
        lemma_scan_grows(t, i + 1, acc * 10 + value_of(t[i]));
    }
}

fn digit_char(d: u64) -> (c: char)
    requires
        d < 10,
    ensures
        c == digit_of(d as nat),
{
    if d == 0 { '0' } else if d == 1 { '1' } else if d == 2 { '2' } else if d == 3 { '3' }
    else if d == 4 { '4' } else if d == 5 { '5' } else if d == 6 { '6' } else if d == 7 { '7' }
    else if d == 8 { '8' } else { '9' }
}

fn digit_value(c: char) -> (d: u64)
    ensures
        d as nat == value_of(c),
        d < 10,
{
    if c == '1' { 1 } else if c == '2' { 2 } else if c == '3' { 3 } else if c == '4' { 4 }
    else if c == '5' { 5 } else if c == '6' { 6 } else if c == '7' { 7 } else if c == '8' { 8 }
    else if c == '9' { 9 } else { 0 }
}

fn is_digit_char(c: char) -> (b: bool)
    ensures
        b == is_digit(c),
{
    '0' <= c && c <= '9'
}

fn is_word(c: char) -> (b: bool)
    ensures
        b == is_word_char(c),
{
    ('0' <= c && c <= '9') || ('a' <= c && c <= 'z') || ('A' <= c && c <= 'Z') || c == '_'
}

fn push_nat(out: &mut Vec<char>, n: u64)
    ensures
        final(out)@ == old(out)@ + nat_text(n as nat),
    decreases n,
{
    let ghost start = out@;
    if n >= 10 {
        push_nat(out, n / 10);
    }
    out.push(digit_char(n % 10));
    assert(out@ =~= start + nat_text(n as nat));
}

fn push_int(out: &mut Vec<char>, n: i64)
    ensures
        final(out)@ == old(out)@ + int_text(n as int),
{
    let ghost start = out@;
    if n < 0 {
        out.push('-');
        let m: u64 = (0i128 - n as i128) as u64;
        push_nat(out, m);
        assert(out@ =~= start + int_text(n as int));
    } else {
        push_nat(out, n as u64);
    }
}

fn push_all(out: &mut Vec<char>, s: &Vec<char>)
    ensures
        final(out)@ == old(out)@ + s@,
{
    let ghost start = out@;
    let mut i: usize = 0;
    while i < s.len()
        invariant
            i <= s@.len(),
            out@ == start + s@.subrange(0, i as int),
        decreases s@.len() - i,
    {
        out.push(s[i]);
        i = i + 1;
        assert(out@ =~= start + s@.subrange(0, i as int));
    }
    assert(s@.subrange(0, i as int) =~= s@);
}

fn push_lit(out: &mut Vec<char>, lit: Vec<char>, Ghost(want): Ghost<Seq<char>>)
    requires
        lit@ == want,
    ensures
        final(out)@ == old(out)@ + want,
{
    push_all(out, &lit);
}

/// Renders claims as their JSON text.
pub fn write_claims(c: &Claims) -> (r: Vec<char>)
    ensures
        r@ == claims_text(c@),
{
    let mut out: Vec<char> = Vec::new();
    push_lit(&mut out, vec!['{', '"', 'e', 'x', 'p', '"', ':'], Ghost(lit_exp()));
    push_int(&mut out, c.exp);
    push_lit(&mut out, vec![',', '"', 'i', 'a', 't', '"', ':'], Ghost(lit_iat()));
    push_int(&mut out, c.iat);
    push_lit(&mut out, vec![',', '"', 's', 'u', 'b', '"', ':', '"'], Ghost(lit_sub()));
    push_all(&mut out, &c.sub);
    push_lit(&mut out, vec!['"', ',', '"', 'i', 'd', '"', ':'], Ghost(lit_id()));
    push_nat(&mut out, c.id);
    match &c.public_token {
        Some(tok) => {
            push_lit(
                &mut out,
                vec![',', '"', 'p', 'u', 'b', 'l', 'i', 'c', '_', 't', 'o', 'k', 'e', 'n', '"', ':', '"'],
                Ghost(lit_token()),
            );
            push_all(&mut out, tok);
            push_lit(&mut out, vec!['"', '}'], Ghost(lit_end_token()));
        },
        None => {
            let mut close: Vec<char> = Vec::new();
            close.push('}');
            assert(close@ =~= lit_end());
            push_all(&mut out, &close);
        },
    }
    assert(out@ =~= claims_text(c@));
    out
}

fn scan_nat(t: &Vec<char>, start: usize) -> (r: Option<(u64, usize)>)
    requires
        start <= t@.len(),
    ensures
        match r {
            Some((v, e)) => nat_at(t@, start as int) == Some((v as int, e as int)) && e <= t@.len(),
            None => match nat_at(t@, start as int) {
                Some((v, e)) => v > u64::MAX,
                None => true,
            },
        },
{
    let mut i: usize = start;
    let mut acc: u64 = 0;
    while i < t.len() && is_digit_char(t[i])
        invariant
            start <= i <= t@.len(),
            scan_digits(t@, i as int, acc as nat) == scan_digits(t@, start as int, 0),
            i > start || acc == 0,
        decreases t@.len() - i,
    {
        let d = digit_value(t[i]);
        if acc > (u64::MAX - d) / 10 {
            proof {
                lemma_scan_grows(t@, i + 1, (acc * 10 + d) as nat);
            }
            return None;
        }
        acc = acc * 10 + d;
        i = i + 1;
    }
    if i == start {
        None
    } else {
        Some((acc, i))
    }
}

fn scan_int(t: &Vec<char>, start: usize) -> (r: Option<(i64, usize)>)
    requires
        start <= t@.len(),
    ensures
        match r {
            Some((v, e)) => int_at(t@, start as int) == Some((v as int, e as int)) && e <= t@.len(),
            None => match int_at(t@, start as int) {
                Some((v, e)) => v < i64::MIN || v > i64::MAX,
                None => true,
            },
        },
{
    if start < t.len() && t[start] == '-' {
        match scan_nat(t, start + 1) {
            Some((v, e)) => if v <= 9223372036854775808u64 {
                Some(((0i128 - v as i128) as i64, e))
            } else {
                None
            },
            None => None,
        }
    } else {
        match scan_nat(t, start) {
            Some((v, e)) => if v <= 9223372036854775807u64 {
                Some((v as i64, e))
            } else {
                None
            },
            None => None,
        }
    }
}

fn find_quote(t: &Vec<char>, start: usize) -> (e: usize)
    requires
        start <= t@.len(),
    ensures
        e as int == quote_at(t@, start as int),
        start <= e <= t@.len(),
{
    let mut i: usize = start;
    while i < t.len() && t[i] != '"'
        invariant
            start <= i <= t@.len(),
            quote_at(t@, i as int) == quote_at(t@, start as int),
        decreases t@.len() - i,
    {
        i = i + 1;
    }
    i
}

fn copy_range(t: &Vec<char>, a: usize, b: usize) -> (r: Vec<char>)
    requires
        a <= b <= t@.len(),
    ensures
        r@ == t@.subrange(a as int, b as int),
{
    let mut r: Vec<char> = Vec::new();
    let mut i: usize = a;
    while i < b
        invariant
            a <= i <= b <= t@.len(),
            r@ == t@.subrange(a as int, i as int),
        decreases b - i,
    {
        r.push(t[i]);
        i = i + 1;
        assert(r@ =~= t@.subrange(a as int, i as int));
    }
    r
}

fn all_plain(s: &Vec<char>) -> (b: bool)
    ensures
        b == is_plain(s@),
{
    let mut i: usize = 0;
    while i < s.len()
        invariant
            i <= s@.len(),
            forall|k: int| 0 <= k < i ==> is_word_char(#[trigger] s@[k]),
        decreases s@.len() - i,
    {
        if !is_word(s[i]) {
            return false;
        }
        i = i + 1;
    }
    true
}

/// Whether two character sequences are equal.
pub fn same_chars(a: &Vec<char>, b: &Vec<char>) -> (r: bool)
    ensures
        r == (a@ == b@),
{
    if a.len() != b.len() {
        return false;
    }
    let mut i: usize = 0;
    while i < a.len()
        invariant
            a@.len() == b@.len(),
            i <= a@.len(),
            forall|k: int| 0 <= k < i ==> a@[k] == b@[k],
        decreases a@.len() - i,
    {
        if a[i] != b[i] {
            return false;
        }
        i = i + 1;
    }
    assert(a@ =~= b@);
    true
}

/// Reads claims back from their JSON text; `None` when the text is not the
/// text of well-formed claims.
pub fn read_claims(t: &Vec<char>) -> (r: Option<Claims>)
    ensures
        match r {
            Some(c) => parse_claims(t@) == Some(c@),
            None => parse_claims(t@) is None,
        },
{
    if t.len() < 7 {
        return None;
    }
    let (exp, p1) = match scan_int(t, 7) {
        Some(x) => x,
        None => return None,
    };
    if t.len() - p1 < 7 {
        return None;
    }
    let (iat, p2) = match scan_int(t, p1 + 7) {
        Some(x) => x,
        None => return None,
    };
    if t.len() - p2 < 8 {
        return None;
    }
    let e = find_quote(t, p2 + 8);
    if t.len() - e < 7 {
        return None;
    }
    let (id, p3) = match scan_nat(t, e + 7) {
        Some(x) => x,
        None => return None,
    };
    let public_token = if p3 < t.len() && t[p3] == ',' {
        if t.len() - p3 < 17 {
            return None;
        }
        let e2 = find_quote(t, p3 + 17);
        Some(copy_range(t, p3 + 17, e2))
    } else {
        None
    };
    let c = Claims { exp, iat, sub: copy_range(t, p2 + 8, e), id, public_token };
    assert(fields_at(t@) == Some(c@));
    if !all_plain(&c.sub) {
        return None;
    }
    match &c.public_token {
        Some(tok) => {
            if !all_plain(tok) {
                return None;
            }
        },
        None => {},
    }
    let text = write_claims(&c);
    if same_chars(&text, t) {
        Some(c)
    } else {
        None
    }
}

} // verus!
