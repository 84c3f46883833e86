//! Fiat currencies and the standard forex pairs between them.

use vstd::prelude::*;
use crate::text::{chars_of, concat, concat3, owned, string_of, to_upper_char, upper};

verus! {

/// A fiat currency, identified by its three-letter ISO 4217 code.
#[derive(Clone, Copy, Debug, PartialEq, Eq, Hash, Structural)]
pub enum Currency {
    AUD,
    BRL,
    CAD,
    CHF,
    CNY,
    CZK,
    DKK,
    EUR,
    GBP,
    HKD,
    HUF,
    IDR,
    INR,
    JPY,
    KRW,
    MXN,
    MYR,
    NOK,
    NZD,
    PHP,
    PLN,
    RUB,
    SAR,
    SEK,
    SGD,
    THB,
    TRY,
    TWD,
    USD,
    ZAR,
}

/// The three-letter code of a currency.
pub open spec fn currency_code(c: Currency) -> Seq<char> {
    match c {
        Currency::AUD => seq!['A', 'U', 'D'],
        Currency::BRL => seq!['B', 'R', 'L'],
        Currency::CAD => seq!['C', 'A', 'D'],
        Currency::CHF => seq!['C', 'H', 'F'],
        Currency::CNY => seq!['C', 'N', 'Y'],
        Currency::CZK => seq!['C', 'Z', 'K'],
        Currency::DKK => seq!['D', 'K', 'K'],
        Currency::EUR => seq!['E', 'U', 'R'],
        Currency::GBP => seq!['G', 'B', 'P'],
        Currency::HKD => seq!['H', 'K', 'D'],
        Currency::HUF => seq!['H', 'U', 'F'],
        Currency::IDR => seq!['I', 'D', 'R'],
        Currency::INR => seq!['I', 'N', 'R'],
        Currency::JPY => seq!['J', 'P', 'Y'],
        Currency::KRW => seq!['K', 'R', 'W'],
        Currency::MXN => seq!['M', 'X', 'N'],
        Currency::MYR => seq!['M', 'Y', 'R'],
        Currency::NOK => seq!['N', 'O', 'K'],
        Currency::NZD => seq!['N', 'Z', 'D'],
        Currency::PHP => seq!['P', 'H', 'P'],
        Currency::PLN => seq!['P', 'L', 'N'],
        Currency::RUB => seq!['R', 'U', 'B'],
        Currency::SAR => seq!['S', 'A', 'R'],
        Currency::SEK => seq!['S', 'E', 'K'],
        Currency::SGD => seq!['S', 'G', 'D'],
        Currency::THB => seq!['T', 'H', 'B'],
        Currency::TRY => seq!['T', 'R', 'Y'],
        Currency::TWD => seq!['T', 'W', 'D'],
        Currency::USD => seq!['U', 'S', 'D'],
        Currency::ZAR => seq!['Z', 'A', 'R'],
    }
}

/// The currency whose code equals `code` once ASCII letters are upper-cased.
pub open spec fn currency_named(code: Seq<char>) -> Option<Currency> {
    if exists|c: Currency| currency_code(c) == upper(code) {
        Some(choose|c: Currency| currency_code(c) == upper(code))
    } else {
        None
    }
}

/// Distinct currencies have distinct codes.
pub proof fn lemma_currency_code_injective(a: Currency, b: Currency)
    requires
        currency_code(a) == currency_code(b),
    ensures
        a == b,
{
    let ca = currency_code(a);
    let cb = currency_code(b);
    assert(ca[0] == cb[0] && ca[1] == cb[1] && ca[2] == cb[2]);
}

/// The currency with the given code, upper-cased.
fn currency_of_chars(a: char, b: char, c: char) -> (r: Option<Currency>)
    ensures
        match r {
            Some(cur) => currency_code(cur) == seq![a, b, c],
            None => forall|cur: Currency| currency_code(cur) != seq![a, b, c],
        },
{
    let r = match (a, b, c) {
        ('A', 'U', 'D') => Some(Currency::AUD),
        ('B', 'R', 'L') => Some(Currency::BRL),
        ('C', 'A', 'D') => Some(Currency::CAD),
        ('C', 'H', 'F') => Some(Currency::CHF),
        ('C', 'N', 'Y') => Some(Currency::CNY),
        ('C', 'Z', 'K') => Some(Currency::CZK),
        ('D', 'K', 'K') => Some(Currency::DKK),
        ('E', 'U', 'R') => Some(Currency::EUR),
        ('G', 'B', 'P') => Some(Currency::GBP),
        ('H', 'K', 'D') => Some(Currency::HKD),
        ('H', 'U', 'F') => Some(Currency::HUF),
        ('I', 'D', 'R') => Some(Currency::IDR),
        ('I', 'N', 'R') => Some(Currency::INR),
        ('J', 'P', 'Y') => Some(Currency::JPY),
        ('K', 'R', 'W') => Some(Currency::KRW),
        ('M', 'X', 'N') => Some(Currency::MXN),
        ('M', 'Y', 'R') => Some(Currency::MYR),
        ('N', 'O', 'K') => Some(Currency::NOK),
        ('N', 'Z', 'D') => Some(Currency::NZD),
        ('P', 'H', 'P') => Some(Currency::PHP),
        ('P', 'L', 'N') => Some(Currency::PLN),
        ('R', 'U', 'B') => Some(Currency::RUB),
        ('S', 'A', 'R') => Some(Currency::SAR),
        ('S', 'E', 'K') => Some(Currency::SEK),
        ('S', 'G', 'D') => Some(Currency::SGD),
        ('T', 'H', 'B') => Some(Currency::THB),
        ('T', 'R', 'Y') => Some(Currency::TRY),
        ('T', 'W', 'D') => Some(Currency::TWD),
        ('U', 'S', 'D') => Some(Currency::USD),
        ('Z', 'A', 'R') => Some(Currency::ZAR),
        _ => None,
    };
    proof {
        if r is None {
            assert forall|cur: Currency| currency_code(cur) != seq![a, b, c] by {
                let k = currency_code(cur);
                if k == seq![a, b, c] {
                    assert(k[0] == a && k[1] == b && k[2] == c);
                }
            }
        } else {
            assert(currency_code(r->0) =~= seq![a, b, c]);
        }
    }
    r
}

impl Currency {
    /// Parse a currency code, ignoring ASCII case.
    pub fn parse(s: &str) -> (r: Option<Currency>)
        ensures
            r == currency_named(s@),
    {
        let cs = chars_of(s);
        if cs.len() != 3 {
            proof {
                assert forall|cur: Currency| currency_code(cur) != upper(s@) by {
                    assert(currency_code(cur).len() == 3);
                }
            }
            return None;
        }
        let a = to_upper_char(cs[0]);
        let b = to_upper_char(cs[1]);
        let c = to_upper_char(cs[2]);
        let r = currency_of_chars(a, b, c);
        proof {
            assert(upper(s@) =~= seq![a, b, c]);
            if let Some(cur) = r {
                let chosen = choose|k: Currency| currency_code(k) == upper(s@);
                lemma_currency_code_injective(cur, chosen);
            }
        }
        r
    }

    /// The three-letter code of the currency.
    pub fn code(&self) -> (s: String)
        ensures
            s@ == currency_code(*self),
    {
        let (a, b, c) = self.code_chars();
        let v = vec![a, b, c];
        assert(v@ =~= currency_code(*self));
        string_of(&v)
    }

    /// The three letters of the currency's code.
    pub fn code_chars(&self) -> (r: (char, char, char))
        ensures
            seq![r.0, r.1, r.2] == currency_code(*self),
    {
        let r = match self {
            Currency::AUD => ('A', 'U', 'D'),
            Currency::BRL => ('B', 'R', 'L'),
            Currency::CAD => ('C', 'A', 'D'),
            Currency::CHF => ('C', 'H', 'F'),
            Currency::CNY => ('C', 'N', 'Y'),
            Currency::CZK => ('C', 'Z', 'K'),
            Currency::DKK => ('D', 'K', 'K'),
            Currency::EUR => ('E', 'U', 'R'),
            Currency::GBP => ('G', 'B', 'P'),
            Currency::HKD => ('H', 'K', 'D'),
            Currency::HUF => ('H', 'U', 'F'),
            Currency::IDR => ('I', 'D', 'R'),
            Currency::INR => ('I', 'N', 'R'),
            Currency::JPY => ('J', 'P', 'Y'),
            Currency::KRW => ('K', 'R', 'W'),
            Currency::MXN => ('M', 'X', 'N'),
            Currency::MYR => ('M', 'Y', 'R'),
            Currency::NOK => ('N', 'O', 'K'),
            Currency::NZD => ('N', 'Z', 'D'),
            Currency::PHP => ('P', 'H', 'P'),
            Currency::PLN => ('P', 'L', 'N'),
            Currency::RUB => ('R', 'U', 'B'),
            Currency::SAR => ('S', 'A', 'R'),
            Currency::SEK => ('S', 'E', 'K'),
            Currency::SGD => ('S', 'G', 'D'),
            Currency::THB => ('T', 'H', 'B'),
            Currency::TRY => ('T', 'R', 'Y'),
            Currency::TWD => ('T', 'W', 'D'),
            Currency::USD => ('U', 'S', 'D'),
            Currency::ZAR => ('Z', 'A', 'R'),
        };
        assert(seq![r.0, r.1, r.2] =~= currency_code(*self));
        r
    }
}

/// A standard forex currency pair; its name is the base code followed by the quote code.
#[derive(Clone, Copy, Debug, PartialEq, Eq, Hash, Structural)]
pub enum ForexPair {
    AUDCAD,
    AUDCHF,
    AUDJPY,
    AUDNZD,
    AUDUSD,
    CADJPY,
    CHFJPY,
    EURAUD,
    EURCAD,
    EURCHF,
    EURCZK,
    EURDKK,
    EURGBP,
    EURHUF,
    EURJPY,
    EURMXN,
    EURNOK,
    EURNZD,
    EURPLN,
    EURSEK,
    EURTRY,
    EURUSD,
    EURZAR,
    GBPAUD,
    GBPCAD,
    GBPCHF,
    GBPDKK,
    GBPJPY,
    GBPNOK,
    GBPNZD,
    GBPPLN,
    GBPSEK,
    GBPTRY,
    GBPUSD,
    GBPZAR,
    NZDCAD,
    NZDCHF,
    NZDJPY,
    NZDUSD,
    USDBRL,
    USDCAD,
    USDCHF,
    USDCNY,
    USDCZK,
    USDDKK,
    USDHKD,
    USDHUF,
    USDIDR,
    USDINR,
    USDJPY,
    USDKRW,
    USDMXN,
    USDMYR,
    USDNOK,
    USDPHP,
    USDPLN,
    USDRUB,
    USDSAR,
    USDSEK,
    USDSGD,
    USDTHB,
    USDTRY,
    USDTWD,
    USDZAR,
}

/// The (base, quote) currencies of a pair.
pub open spec fn pair_currencies(p: ForexPair) -> (Currency, Currency) {
    match p {
        ForexPair::AUDCAD => (Currency::AUD, Currency::CAD),
        ForexPair::AUDCHF => (Currency::AUD, Currency::CHF),
        ForexPair::AUDJPY => (Currency::AUD, Currency::JPY),
        ForexPair::AUDNZD => (Currency::AUD, Currency::NZD),
        ForexPair::AUDUSD => (Currency::AUD, Currency::USD),
        ForexPair::CADJPY => (Currency::CAD, Currency::JPY),
        ForexPair::CHFJPY => (Currency::CHF, Currency::JPY),
        ForexPair::EURAUD => (Currency::EUR, Currency::AUD),
        ForexPair::EURCAD => (Currency::EUR, Currency::CAD),
        ForexPair::EURCHF => (Currency::EUR, Currency::CHF),
        ForexPair::EURCZK => (Currency::EUR, Currency::CZK),
        ForexPair::EURDKK => (Currency::EUR, Currency::DKK),
        ForexPair::EURGBP => (Currency::EUR, Currency::GBP),
        ForexPair::EURHUF => (Currency::EUR, Currency::HUF),
        ForexPair::EURJPY => (Currency::EUR, Currency::JPY),
        ForexPair::EURMXN => (Currency::EUR, Currency::MXN),
        ForexPair::EURNOK => (Currency::EUR, Currency::NOK),
        ForexPair::EURNZD => (Currency::EUR, Currency::NZD),
        ForexPair::EURPLN => (Currency::EUR, Currency::PLN),
        ForexPair::EURSEK => (Currency::EUR, Currency::SEK),
        ForexPair::EURTRY => (Currency::EUR, Currency::TRY),
        ForexPair::EURUSD => (Currency::EUR, Currency::USD),
        ForexPair::EURZAR => (Currency::EUR, Currency::ZAR),
        ForexPair::GBPAUD => (Currency::GBP, Currency::AUD),
        ForexPair::GBPCAD => (Currency::GBP, Currency::CAD),
        ForexPair::GBPCHF => (Currency::GBP, Currency::CHF),
        ForexPair::GBPDKK => (Currency::GBP, Currency::DKK),
        ForexPair::GBPJPY => (Currency::GBP, Currency::JPY),
        ForexPair::GBPNOK => (Currency::GBP, Currency::NOK),
        ForexPair::GBPNZD => (Currency::GBP, Currency::NZD),
        ForexPair::GBPPLN => (Currency::GBP, Currency::PLN),
        ForexPair::GBPSEK => (Currency::GBP, Currency::SEK),
        ForexPair::GBPTRY => (Currency::GBP, Currency::TRY),
        ForexPair::GBPUSD => (Currency::GBP, Currency::USD),
        ForexPair::GBPZAR => (Currency::GBP, Currency::ZAR),
        ForexPair::NZDCAD => (Currency::NZD, Currency::CAD),
        ForexPair::NZDCHF => (Currency::NZD, Currency::CHF),
        ForexPair::NZDJPY => (Currency::NZD, Currency::JPY),
        ForexPair::NZDUSD => (Currency::NZD, Currency::USD),
        ForexPair::USDBRL => (Currency::USD, Currency::BRL),
        ForexPair::USDCAD => (Currency::USD, Currency::CAD),
        ForexPair::USDCHF => (Currency::USD, Currency::CHF),
        ForexPair::USDCNY => (Currency::USD, Currency::CNY),
        ForexPair::USDCZK => (Currency::USD, Currency::CZK),
        ForexPair::USDDKK => (Currency::USD, Currency::DKK),
        ForexPair::USDHKD => (Currency::USD, Currency::HKD),
        ForexPair::USDHUF => (Currency::USD, Currency::HUF),
        ForexPair::USDIDR => (Currency::USD, Currency::IDR),
        ForexPair::USDINR => (Currency::USD, Currency::INR),
        ForexPair::USDJPY => (Currency::USD, Currency::JPY),
        ForexPair::USDKRW => (Currency::USD, Currency::KRW),
        ForexPair::USDMXN => (Currency::USD, Currency::MXN),
        ForexPair::USDMYR => (Currency::USD, Currency::MYR),
        ForexPair::USDNOK => (Currency::USD, Currency::NOK),
        ForexPair::USDPHP => (Currency::USD, Currency::PHP),
        ForexPair::USDPLN => (Currency::USD, Currency::PLN),
        ForexPair::USDRUB => (Currency::USD, Currency::RUB),
        ForexPair::USDSAR => (Currency::USD, Currency::SAR),
        ForexPair::USDSEK => (Currency::USD, Currency::SEK),
        ForexPair::USDSGD => (Currency::USD, Currency::SGD),
        ForexPair::USDTHB => (Currency::USD, Currency::THB),
        ForexPair::USDTRY => (Currency::USD, Currency::TRY),
        ForexPair::USDTWD => (Currency::USD, Currency::TWD),
        ForexPair::USDZAR => (Currency::USD, Currency::ZAR),
    }
}

/// The six-letter name of a pair.
pub open spec fn pair_code(p: ForexPair) -> Seq<char> {
    currency_code(pair_currencies(p).0) + currency_code(pair_currencies(p).1)
}

/// The pair whose name equals `code` once ASCII letters are upper-cased.
pub open spec fn pair_named(code: Seq<char>) -> Option<ForexPair> {
    if exists|p: ForexPair| pair_code(p) == upper(code) {
        Some(choose|p: ForexPair| pair_code(p) == upper(code))
    } else {
        None
    }
}

/// Distinct pairs have distinct names.
pub proof fn lemma_pair_code_injective(a: ForexPair, b: ForexPair)
    requires
        pair_code(a) == pair_code(b),
    ensures
        a == b,
{
    let (ab, aq) = pair_currencies(a);
    let (bb, bq) = pair_currencies(b);
    assert(currency_code(ab) =~= pair_code(a).subrange(0, 3));
    assert(currency_code(bb) =~= pair_code(b).subrange(0, 3));
    assert(currency_code(aq) =~= pair_code(a).subrange(3, 6));
    assert(currency_code(bq) =~= pair_code(b).subrange(3, 6));
    lemma_currency_code_injective(ab, bb);
    lemma_currency_code_injective(aq, bq);
}

/// A currency code is already upper-case.
proof fn lemma_code_upper(c: Currency)
    ensures
        upper(currency_code(c)) == currency_code(c),
{
    assert(upper(currency_code(c)) =~= currency_code(c));
}

/// A currency's code names that currency again.
pub proof fn law_currency_code_round_trip(c: Currency)
    ensures
        currency_named(currency_code(c)) == Some(c),
{
    lemma_code_upper(c);
    let chosen = choose|k: Currency| currency_code(k) == upper(currency_code(c));
    lemma_currency_code_injective(chosen, c);
}

/// A pair's six-letter name names that pair again (so `ForexPair::new` of it
/// gives the pair back), and no pair quotes a currency in itself.
pub proof fn law_pair_code_round_trip(p: ForexPair)
    ensures
        pair_named(pair_code(p)) == Some(p),
        pair_currencies(p).0 != pair_currencies(p).1,
{
    let (b, q) = pair_currencies(p);
    lemma_code_upper(b);
    lemma_code_upper(q);
    assert(upper(pair_code(p)) =~= pair_code(p)) by {
        assert(upper(currency_code(b)) == currency_code(b));
        assert(upper(currency_code(q)) == currency_code(q));
        assert forall|i: int| 0 <= i < pair_code(p).len() implies upper(pair_code(p))[i] == pair_code(p)[i] by {
            if i < 3 {
                assert(upper(currency_code(b))[i] == currency_code(b)[i]);
            } else {
                assert(upper(currency_code(q))[i - 3] == currency_code(q)[i - 3]);
            }
        }
    }
    let chosen = choose|k: ForexPair| pair_code(k) == upper(pair_code(p));
    lemma_pair_code_injective(chosen, p);
}

/// The standard pair with the given base and quote, if there is one.
fn pair_of(base: Currency, quote: Currency) -> (r: Option<ForexPair>)
    ensures
        match r {
            Some(p) => pair_currencies(p) == (base, quote),
            None => forall|p: ForexPair| pair_currencies(p) != (base, quote),
        },
{
    match (base, quote) {
        (Currency::AUD, Currency::CAD) => Some(ForexPair::AUDCAD),
        (Currency::AUD, Currency::CHF) => Some(ForexPair::AUDCHF),
        (Currency::AUD, Currency::JPY) => Some(ForexPair::AUDJPY),
        (Currency::AUD, Currency::NZD) => Some(ForexPair::AUDNZD),
        (Currency::AUD, Currency::USD) => Some(ForexPair::AUDUSD),
        (Currency::CAD, Currency::JPY) => Some(ForexPair::CADJPY),
        (Currency::CHF, Currency::JPY) => Some(ForexPair::CHFJPY),
        (Currency::EUR, Currency::AUD) => Some(ForexPair::EURAUD),
        (Currency::EUR, Currency::CAD) => Some(ForexPair::EURCAD),
        (Currency::EUR, Currency::CHF) => Some(ForexPair::EURCHF),
        (Currency::EUR, Currency::CZK) => Some(ForexPair::EURCZK),
        (Currency::EUR, Currency::DKK) => Some(ForexPair::EURDKK),
        (Currency::EUR, Currency::GBP) => Some(ForexPair::EURGBP),
        (Currency::EUR, Currency::HUF) => Some(ForexPair::EURHUF),
        (Currency::EUR, Currency::JPY) => Some(ForexPair::EURJPY),
        (Currency::EUR, Currency::MXN) => Some(ForexPair::EURMXN),
        (Currency::EUR, Currency::NOK) => Some(ForexPair::EURNOK),
        (Currency::EUR, Currency::NZD) => Some(ForexPair::EURNZD),
        (Currency::EUR, Currency::PLN) => Some(ForexPair::EURPLN),
        (Currency::EUR, Currency::SEK) => Some(ForexPair::EURSEK),
        (Currency::EUR, Currency::TRY) => Some(ForexPair::EURTRY),
        (Currency::EUR, Currency::USD) => Some(ForexPair::EURUSD),
        (Currency::EUR, Currency::ZAR) => Some(ForexPair::EURZAR),
        (Currency::GBP, Currency::AUD) => Some(ForexPair::GBPAUD),
        (Currency::GBP, Currency::CAD) => Some(ForexPair::GBPCAD),
        (Currency::GBP, Currency::CHF) => Some(ForexPair::GBPCHF),
        (Currency::GBP, Currency::DKK) => Some(ForexPair::GBPDKK),
        (Currency::GBP, Currency::JPY) => Some(ForexPair::GBPJPY),
        (Currency::GBP, Currency::NOK) => Some(ForexPair::GBPNOK),
        (Currency::GBP, Currency::NZD) => Some(ForexPair::GBPNZD),
        (Currency::GBP, Currency::PLN) => Some(ForexPair::GBPPLN),
        (Currency::GBP, Currency::SEK) => Some(ForexPair::GBPSEK),
        (Currency::GBP, Currency::TRY) => Some(ForexPair::GBPTRY),
        (Currency::GBP, Currency::USD) => Some(ForexPair::GBPUSD),
        (Currency::GBP, Currency::ZAR) => Some(ForexPair::GBPZAR),
        (Currency::NZD, Currency::CAD) => Some(ForexPair::NZDCAD),
        (Currency::NZD, Currency::CHF) => Some(ForexPair::NZDCHF),
        (Currency::NZD, Currency::JPY) => Some(ForexPair::NZDJPY),
        (Currency::NZD, Currency::USD) => Some(ForexPair::NZDUSD),
        (Currency::USD, Currency::BRL) => Some(ForexPair::USDBRL),
        (Currency::USD, Currency::CAD) => Some(ForexPair::USDCAD),
        (Currency::USD, Currency::CHF) => Some(ForexPair::USDCHF),
        (Currency::USD, Currency::CNY) => Some(ForexPair::USDCNY),
        (Currency::USD, Currency::CZK) => Some(ForexPair::USDCZK),
        (Currency::USD, Currency::DKK) => Some(ForexPair::USDDKK),
        (Currency::USD, Currency::HKD) => Some(ForexPair::USDHKD),
        (Currency::USD, Currency::HUF) => Some(ForexPair::USDHUF),
        (Currency::USD, Currency::IDR) => Some(ForexPair::USDIDR),
        (Currency::USD, Currency::INR) => Some(ForexPair::USDINR),
        (Currency::USD, Currency::JPY) => Some(ForexPair::USDJPY),
        (Currency::USD, Currency::KRW) => Some(ForexPair::USDKRW),
        (Currency::USD, Currency::MXN) => Some(ForexPair::USDMXN),
        (Currency::USD, Currency::MYR) => Some(ForexPair::USDMYR),
        (Currency::USD, Currency::NOK) => Some(ForexPair::USDNOK),
        (Currency::USD, Currency::PHP) => Some(ForexPair::USDPHP),
        (Currency::USD, Currency::PLN) => Some(ForexPair::USDPLN),
        (Currency::USD, Currency::RUB) => Some(ForexPair::USDRUB),
        (Currency::USD, Currency::SAR) => Some(ForexPair::USDSAR),
        (Currency::USD, Currency::SEK) => Some(ForexPair::USDSEK),
        (Currency::USD, Currency::SGD) => Some(ForexPair::USDSGD),
        (Currency::USD, Currency::THB) => Some(ForexPair::USDTHB),
        (Currency::USD, Currency::TRY) => Some(ForexPair::USDTRY),
        (Currency::USD, Currency::TWD) => Some(ForexPair::USDTWD),
        (Currency::USD, Currency::ZAR) => Some(ForexPair::USDZAR),
        _ => None,
    }
}

impl ForexPair {
    /// The (base, quote) currencies of the pair.
    pub fn data(&self) -> (r: (Currency, Currency))
        ensures
            r == pair_currencies(*self),
    {
        match self {
            ForexPair::AUDCAD => (Currency::AUD, Currency::CAD),
            ForexPair::AUDCHF => (Currency::AUD, Currency::CHF),
            ForexPair::AUDJPY => (Currency::AUD, Currency::JPY),
            ForexPair::AUDNZD => (Currency::AUD, Currency::NZD),
            ForexPair::AUDUSD => (Currency::AUD, Currency::USD),
            ForexPair::CADJPY => (Currency::CAD, Currency::JPY),
            ForexPair::CHFJPY => (Currency::CHF, Currency::JPY),
            ForexPair::EURAUD => (Currency::EUR, Currency::AUD),
            ForexPair::EURCAD => (Currency::EUR, Currency::CAD),
            ForexPair::EURCHF => (Currency::EUR, Currency::CHF),
            ForexPair::EURCZK => (Currency::EUR, Currency::CZK),
            ForexPair::EURDKK => (Currency::EUR, Currency::DKK),
            ForexPair::EURGBP => (Currency::EUR, Currency::GBP),
            ForexPair::EURHUF => (Currency::EUR, Currency::HUF),
            ForexPair::EURJPY => (Currency::EUR, Currency::JPY),
            ForexPair::EURMXN => (Currency::EUR, Currency::MXN),
            ForexPair::EURNOK => (Currency::EUR, Currency::NOK),
            ForexPair::EURNZD => (Currency::EUR, Currency::NZD),
            ForexPair::EURPLN => (Currency::EUR, Currency::PLN),
            ForexPair::EURSEK => (Currency::EUR, Currency::SEK),
            ForexPair::EURTRY => (Currency::EUR, Currency::TRY),
            ForexPair::EURUSD => (Currency::EUR, Currency::USD),
            ForexPair::EURZAR => (Currency::EUR, Currency::ZAR),
            ForexPair::GBPAUD => (Currency::GBP, Currency::AUD),
            ForexPair::GBPCAD => (Currency::GBP, Currency::CAD),
            ForexPair::GBPCHF => (Currency::GBP, Currency::CHF),
            ForexPair::GBPDKK => (Currency::GBP, Currency::DKK),
            ForexPair::GBPJPY => (Currency::GBP, Currency::JPY),
            ForexPair::GBPNOK => (Currency::GBP, Currency::NOK),
            ForexPair::GBPNZD => (Currency::GBP, Currency::NZD),
            ForexPair::GBPPLN => (Currency::GBP, Currency::PLN),
            ForexPair::GBPSEK => (Currency::GBP, Currency::SEK),
            ForexPair::GBPTRY => (Currency::GBP, Currency::TRY),
            ForexPair::GBPUSD => (Currency::GBP, Currency::USD),
            ForexPair::GBPZAR => (Currency::GBP, Currency::ZAR),
            ForexPair::NZDCAD => (Currency::NZD, Currency::CAD),
            ForexPair::NZDCHF => (Currency::NZD, Currency::CHF),
            ForexPair::NZDJPY => (Currency::NZD, Currency::JPY),
            ForexPair::NZDUSD => (Currency::NZD, Currency::USD),
            ForexPair::USDBRL => (Currency::USD, Currency::BRL),
            ForexPair::USDCAD => (Currency::USD, Currency::CAD),
            ForexPair::USDCHF => (Currency::USD, Currency::CHF),
            ForexPair::USDCNY => (Currency::USD, Currency::CNY),
            ForexPair::USDCZK => (Currency::USD, Currency::CZK),
            ForexPair::USDDKK => (Currency::USD, Currency::DKK),
            ForexPair::USDHKD => (Currency::USD, Currency::HKD),
            ForexPair::USDHUF => (Currency::USD, Currency::HUF),
            ForexPair::USDIDR => (Currency::USD, Currency::IDR),
            ForexPair::USDINR => (Currency::USD, Currency::INR),
            ForexPair::USDJPY => (Currency::USD, Currency::JPY),
            ForexPair::USDKRW => (Currency::USD, Currency::KRW),
            ForexPair::USDMXN => (Currency::USD, Currency::MXN),
            ForexPair::USDMYR => (Currency::USD, Currency::MYR),
            ForexPair::USDNOK => (Currency::USD, Currency::NOK),
            ForexPair::USDPHP => (Currency::USD, Currency::PHP),
            ForexPair::USDPLN => (Currency::USD, Currency::PLN),
            ForexPair::USDRUB => (Currency::USD, Currency::RUB),
            ForexPair::USDSAR => (Currency::USD, Currency::SAR),
            ForexPair::USDSEK => (Currency::USD, Currency::SEK),
            ForexPair::USDSGD => (Currency::USD, Currency::SGD),
            ForexPair::USDTHB => (Currency::USD, Currency::THB),
            ForexPair::USDTRY => (Currency::USD, Currency::TRY),
            ForexPair::USDTWD => (Currency::USD, Currency::TWD),
            ForexPair::USDZAR => (Currency::USD, Currency::ZAR),
        }
    }

    /// The base currency.
    pub fn base(&self) -> (c: Currency)
        ensures
            c == pair_currencies(*self).0,
    {
        self.data().0
    }

    /// The quote currency.
    pub fn quote(&self) -> (c: Currency)
        ensures
            c == pair_currencies(*self).1,
    {
        self.data().1
    }

    /// Parse a pair from its six-letter name, ignoring ASCII case.
    pub fn parse(s: &str) -> (r: Option<ForexPair>)
        ensures
            r == pair_named(s@),
    {
        let cs = chars_of(s);
        if cs.len() != 6 {
            proof {
                assert(upper(s@).len() == s@.len());
                assert forall|p: ForexPair| pair_code(p) != upper(s@) by {
                    assert(currency_code(pair_currencies(p).0).len() == 3);
                    assert(currency_code(pair_currencies(p).1).len() == 3);
                }
            }
            return None;
        }
        let a = to_upper_char(cs[0]);
        let b = to_upper_char(cs[1]);
        let c = to_upper_char(cs[2]);
        let d = to_upper_char(cs[3]);
        let e = to_upper_char(cs[4]);
        let f = to_upper_char(cs[5]);
        let ghost u = upper(s@);
        assert(u =~= seq![a, b, c] + seq![d, e, f]);
        let base = currency_of_chars(a, b, c);
        let quote = currency_of_chars(d, e, f);
        let r = match (base, quote) {
            (Some(bc), Some(qc)) => pair_of(bc, qc),
            _ => None,
        };
        proof {
            if let Some(p) = r {
                assert(pair_code(p) =~= u);
                let chosen = choose|k: ForexPair| pair_code(k) == upper(s@);
                lemma_pair_code_injective(p, chosen);
            } else {
                assert forall|p: ForexPair| pair_code(p) != u by {
                    let (pb, pq) = pair_currencies(p);
                    if pair_code(p) == u {
                        assert(currency_code(pb) =~= u.subrange(0, 3));
                        assert(currency_code(pq) =~= u.subrange(3, 6));
                        assert(seq![a, b, c] =~= u.subrange(0, 3));
                        assert(seq![d, e, f] =~= u.subrange(3, 6));
                        if let (Some(bc), Some(qc)) = (base, quote) {
                            lemma_currency_code_injective(pb, bc);
                            lemma_currency_code_injective(pq, qc);
                        }
                    }
                }
            }
        }
        r
    }

    /// Construct a pair from its name, or the message `Unknown forex pair: <s>`.
    pub fn new(s: &str) -> (r: Result<ForexPair, String>)
        ensures
            match pair_named(s@) {
                Some(p) => r == Ok::<ForexPair, String>(p),
                None => r is Err && r->Err_0@ == "Unknown forex pair: "@ + s@,
            },
    {
        match ForexPair::parse(s) {
            Some(p) => Ok(p),
            None => Err(concat("Unknown forex pair: ", s)),
        }
    }

    /// The display form `BASE/QUOTE`.
    pub fn label(&self) -> (s: String)
        ensures
            s@ == currency_code(pair_currencies(*self).0) + "/"@ + currency_code(pair_currencies(*self).1),
    {
        let b = self.base().code();
        let q = self.quote().code();
        concat3(b.as_str(), "/", q.as_str())
    }
}

} // verus!
