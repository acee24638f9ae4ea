//! Session tokens: fixed-length identifiers drawn from a secure random source.
//!
//! A token holds `TOKEN_LENGTH` characters out of the lower-case ASCII letters
//! and the ASCII digits, 36 in all, each drawn uniformly: the chance that two
//! tokens collide is `36^-32`.
//!
//! Characters come from a generator seeded by the operating system. Where
//! that cannot be had, a token is refused, unless the fallback is allowed:
//! then a generator seeded from the system clock is used, which anyone who
//! can guess the time of generation can reproduce.
use vstd::prelude::*;

verus! {

/// Number of characters in a token.
pub const TOKEN_LENGTH: usize = 32;

/// Whether generation may fall back to a non-cryptographic, clock-seeded
/// source when the secure one cannot be had. Off: a token is then refused.
pub const ALLOW_UNSAFE_TOKENS: bool = false;

/// Most characters drawn for one token before the source is given up on.
pub const MAX_DRAWS: usize = 4096;

pub open spec fn is_upper(c: char) -> bool {
    'A' <= c && c <= 'Z'
}

/// A character a token may hold.
pub open spec fn is_token_char(c: char) -> bool {
    ('a' <= c && c <= 'z') || ('0' <= c && c <= '9')
}

/// An ASCII letter or digit: what the random sources hand out.
pub open spec fn is_alphanumeric(c: char) -> bool {
    is_upper(c) || is_token_char(c)
}

/// The drawn characters that are kept, in order: all but the upper-case ones.
pub open spec fn accepted(s: Seq<char>) -> Seq<char>
    decreases s.len(),
{
    if s.len() == 0 {
        Seq::empty()
    } else if is_upper(s.last()) {
        accepted(s.drop_last())
    } else {
        accepted(s.drop_last()).push(s.last())
    }
}

/// A well-formed token: the right length, and only allowed characters.
pub open spec fn token_shape(s: Seq<char>) -> bool {
    s.len() == TOKEN_LENGTH && forall|i: int| 0 <= i < s.len() ==> #[trigger] is_token_char(s[i])
}

/// Why no token could be made.
#[derive(Clone, Copy, PartialEq, Eq, Structural, Debug)]
pub enum TokenError {
    /// No secure random source could be had, and the fallback is not allowed.
    SourceUnavailable,
}

/// A session or authorization identifier.
#[derive(Debug)]
pub struct Token {
    chars: Vec<char>,
}

impl View for Token {
    type V = Seq<char>;

    closed spec fn view(&self) -> Seq<char> {
        self.chars@
    }
}

impl Token {
    /// Every token has the shape of one.
    #[verifier::type_invariant]
    spec fn inv(&self) -> bool {
        token_shape(self.chars@)
    }
}

proof fn lemma_accepted_prefix(s: Seq<char>, i: int)
    requires
        0 <= i <= s.len(),
    ensures
        accepted(s.take(i)).len() <= accepted(s).len(),
        accepted(s.take(i)) == accepted(s).take(accepted(s.take(i)).len() as int),
    decreases s.len(),
{
    if i < s.len() {
        let d = s.drop_last();
        assert(d.take(i) =~= s.take(i));
        lemma_accepted_prefix(d, i);
        assert(accepted(d.take(i)) =~= accepted(s).take(accepted(d.take(i)).len() as int));
    } else {
        assert(s.take(i) =~= s);
        assert(accepted(s).take(accepted(s).len() as int) =~= accepted(s));
    }
}

fn is_token_char_exec(c: char) -> (r: bool)
    ensures
        r == is_token_char(c),
{
    ('a' <= c && c <= 'z') || ('0' <= c && c <= '9')
}

fn is_upper_char(c: char) -> (r: bool)
    ensures
        r == is_upper(c),
{
    'A' <= c && c <= 'Z'
}

impl Token {
    /// The token made of the first `TOKEN_LENGTH` characters of `drawn` that
    /// are not upper-case; `None` where fewer are there, or where one of
    /// those is not a lower-case ASCII letter or an ASCII digit.
    pub fn from_draws(drawn: &Vec<char>) -> (r: Option<Token>)
        ensures
            r is Some <==> accepted(drawn@).len() >= TOKEN_LENGTH && token_shape(
                accepted(drawn@).take(TOKEN_LENGTH as int),
            ),
            r matches Some(t) ==> t@ == accepted(drawn@).take(TOKEN_LENGTH as int),
    {
        let mut acc: Vec<char> = Vec::new();
        let mut i: usize = 0;
        while i < drawn.len() && acc.len() < TOKEN_LENGTH
            invariant
                i <= drawn@.len(),
                acc@.len() <= TOKEN_LENGTH,
                acc@ == accepted(drawn@.take(i as int)),
            decreases drawn@.len() - i,
        {
            let c = drawn[i];
            assert(drawn@.take(i as int + 1).drop_last() =~= drawn@.take(i as int));
            if !is_upper_char(c) {
                acc.push(c);
            }
            i = i + 1;
        }
        proof {
            lemma_accepted_prefix(drawn@, i as int);
        }
        if acc.len() < TOKEN_LENGTH {
            assert(drawn@.take(i as int) =~= drawn@);
            return None;
        }
        assert(acc@ =~= accepted(drawn@).take(TOKEN_LENGTH as int));
        let mut j: usize = 0;
        while j < acc.len()
            invariant
                j <= acc@.len() == TOKEN_LENGTH,
                acc@ == accepted(drawn@).take(TOKEN_LENGTH as int),
                forall|k: int| 0 <= k < j ==> #[trigger] is_token_char(acc@[k]),
            decreases acc@.len() - j,
        {
            if !is_token_char_exec(acc[j]) {
                return None;
            }
            j = j + 1;
        }
        Some(Token { chars: acc })
    }

    /// A fresh token; see `generate_from`. The fallback is allowed as
    /// `ALLOW_UNSAFE_TOKENS` says, and seeded from the system clock. Besides a
    /// missing secure source, `SourceUnavailable` also comes where `MAX_DRAWS`
    /// draws hold fewer than `TOKEN_LENGTH` characters that are kept.
    pub fn generate() -> (r: Result<Token, TokenError>)
        ensures
            r matches Ok(t) ==> token_shape(t@),
    {
        Token::generate_with(ALLOW_UNSAFE_TOKENS, clock_seed())
    }

    /// A fresh token from a generator seeded by the operating system; see
    /// `generate_from` for what is done where that cannot be had.
    pub fn generate_with(allow_unsafe: bool, fallback_seed: u64) -> (r: Result<Token, TokenError>)
        ensures
            r matches Ok(t) ==> token_shape(t@),
    {
        Token::generate_from(secure_source(), allow_unsafe, fallback_seed)
    }

    /// A token drawn from `secure` where it was had. Where it was not: without
    /// `allow_unsafe`, `SourceUnavailable` and never a token; with it, a token
    /// from a non-cryptographic generator seeded with `fallback_seed`.
    ///
    /// Characters are drawn until `TOKEN_LENGTH` are kept; a source that
    /// gives fewer in `MAX_DRAWS` draws is taken as broken, and the result is
    /// then `SourceUnavailable` too.
    pub fn generate_from(
        secure: Result<rand::rngs::StdRng, rand::Error>,
        allow_unsafe: bool,
        fallback_seed: u64,
    ) -> (r: Result<Token, TokenError>)
        ensures
            secure is Err && !allow_unsafe ==> r == Err::<Token, TokenError>(
                TokenError::SourceUnavailable,
            ),
            r matches Ok(t) ==> token_shape(t@),
    {
        match secure {
            Ok(mut rng) => Token::fill(&mut rng),
            Err(_) => if allow_unsafe {
                let mut rng = seeded_source(fallback_seed);
                Token::fill(&mut rng)
            } else {
                Err(TokenError::SourceUnavailable)
            },
        }
    }

    fn fill(rng: &mut rand::rngs::StdRng) -> (r: Result<Token, TokenError>)
        ensures
            r matches Ok(t) ==> token_shape(t@),
    {
        let mut drawn: Vec<char> = Vec::new();
        let mut count: usize = 0;
        while count < TOKEN_LENGTH && drawn.len() < MAX_DRAWS
            invariant
                drawn@.len() <= MAX_DRAWS,
                count == accepted(drawn@).len(),
            decreases MAX_DRAWS - drawn@.len(),
        {
            let c = draw_alphanumeric(rng);
            let ghost prev = drawn@;
            drawn.push(c);
            assert(drawn@.drop_last() =~= prev);
            if !is_upper_char(c) {
                count = count + 1;
            }
        }
        match Token::from_draws(&drawn) {
            Some(t) => {
                proof {
                    use_type_invariant(&t);
                }
                Ok(t)
            },
            None => Err(TokenError::SourceUnavailable),
        }
    }

    /// The characters of the token, in order.
    pub fn chars(&self) -> (r: &Vec<char>)
        ensures
            r@ == self@,
            token_shape(r@),
    {
        proof {
            use_type_invariant(self);
        }
        &self.chars
    }

    /// The token as text: its characters in order, with nothing between them.
    pub fn to_string(&self) -> (r: String)
        ensures
            r@ == self@,
            token_shape(r@),
    {
        proof {
            use_type_invariant(self);
        }
        chars_to_string(&self.chars)
    }
}

impl PartialEq for Token {
    fn eq(&self, o: &Token) -> (r: bool) {
        if self.chars.len() != o.chars.len() {
            return false;
        }
        let mut i: usize = 0;
        while i < self.chars.len()
            invariant
                i <= self.chars@.len() == o.chars@.len(),
                forall|j: int| 0 <= j < i ==> self.chars@[j] == o.chars@[j],
            decreases self.chars@.len() - i,
        {
            if self.chars[i] != o.chars[i] {
                return false;
            }
            i = i + 1;
        }
        assert(self.chars@ =~= o.chars@);
        true
    }
}

impl vstd::std_specs::cmp::PartialEqSpecImpl for Token {
    open spec fn obeys_eq_spec() -> bool {
        true
    }

    open spec fn eq_spec(&self, o: &Token) -> bool {
        self@ == o@
    }
}

impl Eq for Token {
}

impl Clone for Token {
    fn clone(&self) -> (r: Token)
        ensures
            r@ == self@,
    {
        proof {
            use_type_invariant(self);
        }
        let mut chars: Vec<char> = Vec::new();
        let mut i: usize = 0;
        while i < self.chars.len()
            invariant
                i <= self.chars@.len(),
                chars@ == self.chars@.take(i as int),
            decreases self.chars@.len() - i,
        {
            chars.push(self.chars[i]);
            i = i + 1;
            assert(chars@ =~= self.chars@.take(i as int));
        }
        assert(chars@ =~= self.chars@);
        Token { chars }
    }
}

/// A seed taken from the system clock: the nanoseconds since the Unix epoch,
/// modulo `2^64`, or `0` where the clock reads earlier than the epoch.
fn clock_seed() -> (r: u64) {
    let now = system_now();
    match since_epoch(&now) {
        Some(d) => (duration_nanos(&d) % 0x1_0000_0000_0000_0000u128) as u64,
        None => 0,
    }
}

#[verifier::external_type_specification]
#[verifier::external_body]
pub struct ExStdRng(rand::rngs::StdRng);

#[verifier::external_type_specification]
#[verifier::external_body]
pub struct ExRandError(rand::Error);

#[verifier::external_type_specification]
#[verifier::external_body]
pub struct ExSystemTime(std::time::SystemTime);

/// Relies on `SeedableRng::from_rng` with `OsRng`: a cryptographically secure
/// generator seeded by the operating system, or the error it reported.
#[verifier::external_body]
fn secure_source() -> (r: Result<rand::rngs::StdRng, rand::Error>) {
    <rand::rngs::StdRng as rand::SeedableRng>::from_rng(rand::rngs::OsRng)
}

/// Relies on `SeedableRng::seed_from_u64`: a generator whose whole state
/// comes from `seed`, without asking the operating system for anything.
#[verifier::external_body]
fn seeded_source(seed: u64) -> (r: rand::rngs::StdRng) {
    <rand::rngs::StdRng as rand::SeedableRng>::seed_from_u64(seed)
}

/// Relies on `Rng::sample` with `Alphanumeric`: one ASCII letter or digit.
#[verifier::external_body]
fn draw_alphanumeric(rng: &mut rand::rngs::StdRng) -> (c: char)
    ensures
        is_alphanumeric(c),
{
    rand::Rng::sample(rng, rand::distributions::Alphanumeric) as char
}

/// Relies on `SystemTime::now`: the time the system clock reads.
#[verifier::external_body]
fn system_now() -> (r: std::time::SystemTime) {
    std::time::SystemTime::now()
}

/// Relies on `SystemTime::duration_since` with `UNIX_EPOCH`: the time since
/// the epoch, or `None` where `t` is earlier.
#[verifier::external_body]
fn since_epoch(t: &std::time::SystemTime) -> (r: Option<core::time::Duration>) {
    t.duration_since(std::time::UNIX_EPOCH).ok()
}

/// Relies on `Duration::as_nanos`: the whole duration in nanoseconds.
#[verifier::external_body]
fn duration_nanos(d: &core::time::Duration) -> (r: u128) {
    d.as_nanos()
}

/// Relies on `String::from_iter` over characters: the string of those characters.
#[verifier::external_body]
pub(crate) fn chars_to_string(v: &Vec<char>) -> (r: String)
    ensures
        r@ == v@,
{
    String::from_iter(v.iter())
}

} // verus!
