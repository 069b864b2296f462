//! Seconds since the Unix epoch.
use vstd::prelude::*;
use vstd::string::StringSliceAdditionalSpecFns;

verus! {

/// Last second of chrono's calendar (262142-12-31 23:59:59 UTC): every timestamp up
/// to it has a calendar text.
pub const MAX_CALENDAR_SECS: u64 = 8210266876799;

/// The text `YYYY-MM-DD HH:MM:SS` of the UTC date and time `secs` seconds after
/// the Unix epoch, as chrono writes it.
pub uninterp spec fn utc_text_of(secs: u64) -> Seq<char>;

/// Relies on chrono's `DateTime::<Utc>::from_timestamp` and `format`: the
/// calendar text of a second count, defined for every count up to the end of
/// chrono's last year, 262142.
#[verifier::external_body]
fn utc_text(secs: u64) -> (r: Option<String>)
    ensures
        secs <= MAX_CALENDAR_SECS ==> r.is_some(),
        r.is_some() ==> r.unwrap()@ == utc_text_of(secs),
{
    chrono::DateTime::from_timestamp(secs as i64, 0).map(|d| d.format("%Y-%m-%d %H:%M:%S").to_string())
}

/// Relies on std's `SystemTime::elapsed`, called on `UNIX_EPOCH`: the time since
/// the epoch by the system clock (in whole seconds here), or an error if the clock
/// reads an earlier time. Nothing is promised of the reading itself.
#[verifier::external_body]
fn clock_seconds() -> (r: Option<u64>) {
    std::time::UNIX_EPOCH.elapsed().ok().map(|d| d.as_secs())
}

/// The number that the decimal digits `d` spell.
pub open spec fn digits_value(d: Seq<u8>) -> nat
    decreases d.len(),
{
    if d.len() == 0 {
        0
    } else {
        digits_value(d.drop_last()) * 10 + (d.last() - 48) as nat
    }
}

/// Every byte of `d` is an ASCII digit.
pub open spec fn all_digits(d: Seq<u8>) -> bool {
    forall|i: int| 0 <= i < d.len() ==> 48 <= #[trigger] d[i] <= 57
}

/// The `u64` that `b` writes in decimal, with an optional leading `+`.
pub open spec fn decimal_of(b: Seq<u8>) -> Option<u64> {
    let d = if b.len() > 0 && b[0] == 43 { b.drop_first() } else { b };
    if d.len() > 0 && all_digits(d) && digits_value(d) <= u64::MAX {
        Some(digits_value(d) as u64)
    } else {
        None
    }
}

proof fn lemma_digits_value_grows(d: Seq<u8>, i: int)
    requires
        all_digits(d),
        0 <= i <= d.len(),
    ensures
        digits_value(d.subrange(0, i)) <= digits_value(d),
    decreases d.len() - i,
{
    if i < d.len() {
        lemma_digits_value_grows(d, i + 1);
        assert(d.subrange(0, i + 1).drop_last() =~= d.subrange(0, i));
    } else {
        assert(d.subrange(0, i) =~= d);
    }
}

fn parse_decimal(b: &[u8]) -> (r: Option<u64>)
    ensures
        r == decimal_of(b@),
{
    let start: usize = if b.len() > 0 && b[0] == 43 { 1 } else { 0 };
    let ghost d = if b@.len() > 0 && b@[0] == 43 { b@.drop_first() } else { b@ };
    proof {
        assert(d =~= b@.subrange(start as int, b@.len() as int));
    }
    if start == b.len() {
        return None;
    }
    let mut v: u64 = 0;
    let mut i: usize = start;
    proof {
        assert(d.subrange(0, 0) =~= Seq::<u8>::empty());
    }
    while i < b.len()
        invariant
            start <= i <= b@.len(),
            d == b@.subrange(start as int, b@.len() as int),
            d == if b@.len() > 0 && b@[0] == 43 { b@.drop_first() } else { b@ },
            all_digits(d.subrange(0, i - start)),
            v as nat == digits_value(d.subrange(0, i - start)),
        decreases b@.len() - i,
    {
        let c = b[i];
        if c < 48 || c > 57 {
            proof {
                assert(d[i - start] == c);
                assert(!(48 <= d[i - start] <= 57));
            }
            return None;
        }
        let digit: u64 = (c - 48) as u64;
        let ghost next = d.subrange(0, i + 1 - start);
        proof {
            assert(next.drop_last() =~= d.subrange(0, i - start));
            assert(next.last() == c);
            assert(all_digits(next)) by {
                assert forall|j: int| 0 <= j < next.len() implies 48 <= #[trigger] next[j] <= 57 by {
                    if j < next.len() - 1 {
                        assert(next[j] == d.subrange(0, i - start)[j]);
                    }
                }
            }
        }
        if v > (u64::MAX - digit) / 10 {
            proof {
                assert(v * 10 + digit > u64::MAX) by (nonlinear_arith)
                    requires
                        v > (u64::MAX - digit) / 10,
                        digit <= 9,
                ;
                assert(digits_value(next) == v * 10 + digit);
                if all_digits(d) {
                    lemma_digits_value_grows(d, i + 1 - start);
                }
            }
            return None;
        }
        proof {
            assert(v * 10 + digit <= u64::MAX) by (nonlinear_arith)
                requires
                    v <= (u64::MAX - digit) / 10,
                    digit <= 9,
            ;
        }
        v = v * 10 + digit;
        i = i + 1;
    }
    proof {
        assert(d.subrange(0, d.len() as int) =~= d);
    }
    Some(v)
}

/// Whole seconds since the Unix epoch, ordered as numbers.
#[derive(Debug, Clone, Copy, PartialEq, Eq, PartialOrd, Ord, Hash, Structural)]
pub struct Timestamp(pub u64);

impl Timestamp {
    /// The largest timestamp.
    pub fn max_value() -> (r: Timestamp)
        ensures
            r.0 == u64::MAX,
    {
        Timestamp(u64::MAX)
    }

    /// The time now by the system clock; the epoch itself if the clock reads an
    /// earlier time.
    pub fn now() -> (r: Timestamp) {
        Timestamp::from_clock_reading(clock_seconds())
    }

    /// The timestamp of a clock reading in whole seconds since the epoch; the epoch
    /// itself for a clock that reads an earlier time (`None`).
    pub fn from_clock_reading(reading: Option<u64>) -> (r: Timestamp)
        ensures
            r.0 == match reading {
                Some(s) => s,
                None => 0,
            },
    {
        match reading {
            Some(s) => Timestamp(s),
            None => Timestamp(0),
        }
    }

    /// The timestamp written in `s` as a decimal number of seconds, with an
    /// optional leading `+`, as std parses a `u64`; `None` for any other text or
    /// a number beyond `u64::MAX`.
    pub fn from_decimal(s: &str) -> (r: Option<Timestamp>)
        ensures
            r.is_some() == decimal_of(s.spec_bytes()).is_some(),
            r.is_some() ==> r.unwrap().0 == decimal_of(s.spec_bytes()).unwrap(),
    {
        match parse_decimal(s.as_bytes()) {
            Some(v) => Some(Timestamp(v)),
            None => None,
        }
    }

    /// Sets the timestamp to the epoch.
    pub fn reset(&mut self)
        ensures
            final(self).0 == 0,
    {
        self.0 = 0;
    }

    /// Seconds between this timestamp and now, in whichever order they come.
    pub fn elapsed(&self) -> (r: u64) {
        let now = Timestamp::now();
        self.elapsed_at(&now)
    }

    /// Seconds between this timestamp and `now`, in whichever order they come.
    pub fn elapsed_at(&self, now: &Timestamp) -> (r: u64)
        ensures
            r == if now.0 >= self.0 { now.0 - self.0 } else { self.0 - now.0 },
    {
        if now.0 >= self.0 {
            now.0 - self.0
        } else {
            self.0 - now.0
        }
    }

    /// The UTC date and time, written `YYYY-MM-DD HH:MM:SS`.
    pub fn to_string(&self) -> (r: String)
        requires
            self.0 <= MAX_CALENDAR_SECS,
        ensures
            r@ == utc_text_of(self.0),
    {
        match utc_text(self.0) {
            Some(s) => s,
            None => String::new(),
        }
    }
}

impl vstd::std_specs::ops::SubSpecImpl for Timestamp {
    open spec fn obeys_sub_spec() -> bool {
        true
    }

    open spec fn sub_req(self, rhs: Timestamp) -> bool {
        rhs.0 <= self.0
    }

    open spec fn sub_spec(self, rhs: Timestamp) -> Timestamp {
        Timestamp((self.0 - rhs.0) as u64)
    }
}

impl std::ops::Sub for Timestamp {
    type Output = Timestamp;

    fn sub(self, rhs: Timestamp) -> (r: Timestamp)
        ensures
            r.0 == self.0 - rhs.0,
    {
        Timestamp(self.0 - rhs.0)
    }
}

impl vstd::std_specs::ops::AddSpecImpl<u64> for Timestamp {
    open spec fn obeys_add_spec() -> bool {
        true
    }

    open spec fn add_req(self, rhs: u64) -> bool {
        self.0 + rhs <= u64::MAX
    }

    open spec fn add_spec(self, rhs: u64) -> Timestamp {
        Timestamp((self.0 + rhs) as u64)
    }
}

impl std::ops::Add<u64> for Timestamp {
    type Output = Timestamp;

    fn add(self, rhs: u64) -> (r: Timestamp)
        ensures
            r.0 == self.0 + rhs,
    {
        Timestamp(self.0 + rhs)
    }
}

/// Addition stops at `u64::MAX`.
impl std::ops::AddAssign<u64> for Timestamp {
    fn add_assign(&mut self, rhs: u64)
        ensures
            final(self).0 == if old(self).0 + rhs <= u64::MAX { (old(self).0 + rhs) as u64 } else { u64::MAX },
    {
        self.0 = self.0.saturating_add(rhs);
    }
}

/// Subtraction stops at the epoch.
impl std::ops::SubAssign<u64> for Timestamp {
    fn sub_assign(&mut self, rhs: u64)
        ensures
            final(self).0 == if old(self).0 >= rhs { (old(self).0 - rhs) as u64 } else { 0 },
    {
        self.0 = self.0.saturating_sub(rhs);
    }
}

/// Parses a decimal number of seconds (see `Timestamp::from_decimal`).
impl std::str::FromStr for Timestamp {
    type Err = ();

    fn from_str(s: &str) -> Result<Timestamp, ()> {
        match Timestamp::from_decimal(s) {
            Some(t) => Ok(t),
            None => Err(()),
        }
    }
}

} // verus!
