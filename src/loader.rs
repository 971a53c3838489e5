use crate::data_types::{Card, Color, Noble};
use vstd::prelude::*;
use vstd::string::StrSliceExecFns;

verus! {

#[verifier::external_type_specification]
#[verifier::external_body]
pub struct ExCsvError(csv::Error);

/// The data rows of a CSV text after its header line, each as its fields;
/// none when the text is not valid CSV.
pub uninterp spec fn csv_rows(data: Seq<char>) -> Option<Seq<Seq<Seq<char>>>>;

pub open spec fn fields_of(rows: Seq<Vec<String>>) -> Seq<Seq<Seq<char>>> {
    rows.map_values(|r: Vec<String>| field_views(r@))
}

/// Relies on csv's `ReaderBuilder` (with `flexible(true)`, rows of any
/// length) and `Reader::records`: the records after the header line, each
/// as its fields, or the reader's error.
#[verifier::external_body]
fn read_records(data: &str) -> (r: Result<Vec<Vec<String>>, csv::Error>)
    ensures
        r is Ok <==> csv_rows(data@) is Some,
        r matches Ok(rows) ==> fields_of(rows@) == csv_rows(data@)->0,
{
    let mut rdr = csv::ReaderBuilder::new().flexible(true).from_reader(data.as_bytes());
    rdr.records().map(|rec| rec.map(|r| r.iter().map(String::from).collect())).collect()
}

/// Why a card or noble list could not be read.
#[derive(Debug, Clone, Copy, PartialEq, Eq, Structural)]
pub enum LoadError {
    /// The text is not valid CSV.
    Malformed,
    /// A row does not describe a card or a noble.
    BadRow,
}

/// The value of a digit in the given radix (10 or 16), or -1.
pub open spec fn digit_value(c: char, radix: int) -> int {
    if '0' <= c <= '9' {
        c as int - '0' as int
    } else if radix == 16 && 'a' <= c <= 'f' {
        c as int - 'a' as int + 10
    } else if radix == 16 && 'A' <= c <= 'F' {
        c as int - 'A' as int + 10
    } else {
        -1
    }
}

pub open spec fn all_digits(s: Seq<char>, radix: int) -> bool {
    forall|k: int| 0 <= k < s.len() ==> digit_value(#[trigger] s[k], radix) >= 0
}

pub open spec fn digits_value(s: Seq<char>, radix: int) -> int
    decreases s.len(),
{
    if s.len() == 0 {
        0
    } else {
        digits_value(s.drop_last(), radix) * radix + digit_value(s.last(), radix)
    }
}

/// A byte written in decimal, or in hexadecimal after `0x`, with an
/// optional `+` before the digits.
pub open spec fn byte_of(s: Seq<char>) -> Option<u8> {
    let hex = s.len() >= 2 && s[0] == '0' && s[1] == 'x';
    let radix: int = if hex {
        16
    } else {
        10
    };
    let t = if hex {
        s.skip(2)
    } else {
        s
    };
    let u = if t.len() > 0 && t[0] == '+' {
        t.skip(1)
    } else {
        t
    };
    if u.len() > 0 && all_digits(u, radix) && digits_value(u, radix) <= u8::MAX {
        Some(digits_value(u, radix) as u8)
    } else {
        None
    }
}

/// A color by its lowercase name.
pub open spec fn color_named(s: Seq<char>) -> Option<Color> {
    if s == seq!['w', 'h', 'i', 't', 'e'] {
        Some(Color::White)
    } else if s == seq!['b', 'l', 'u', 'e'] {
        Some(Color::Blue)
    } else if s == seq!['g', 'r', 'e', 'e', 'n'] {
        Some(Color::Green)
    } else if s == seq!['r', 'e', 'd'] {
        Some(Color::Red)
    } else if s == seq!['b', 'l', 'a', 'c', 'k'] {
        Some(Color::Black)
    } else if s == seq!['g', 'o', 'l', 'd'] {
        Some(Color::Gold)
    } else {
        None
    }
}

/// Five bytes from fields `from` to `from + 4`.
pub open spec fn cost_of(f: Seq<Seq<char>>, from: int) -> Option<Seq<u8>> {
    if forall|k: int| from <= k < from + 5 ==> (#[trigger] byte_of(f[k])) is Some {
        Some(Seq::new(5, |k: int| byte_of(f[from + k])->0))
    } else {
        None
    }
}

/// A card row: level, color, points, then five costs.
pub open spec fn card_of(f: Seq<Seq<char>>) -> Option<Card> {
    if f.len() == 8 && byte_of(f[0]) is Some && color_named(f[1]) is Some && byte_of(f[2]) is Some
        && cost_of(f, 3) is Some {
        let cost = cost_of(f, 3)->0;
        Some(
            Card {
                level: byte_of(f[0])->0 as usize,
                color: color_named(f[1])->0,
                vp: byte_of(f[2])->0,
                cost: [cost[0], cost[1], cost[2], cost[3], cost[4]],
            },
        )
    } else {
        None
    }
}

/// A noble row: points, then five costs.
pub open spec fn noble_of(f: Seq<Seq<char>>) -> Option<Noble> {
    if f.len() == 6 && byte_of(f[0]) is Some && cost_of(f, 1) is Some {
        let cost = cost_of(f, 1)->0;
        Some(Noble { vp: byte_of(f[0])->0, cost: [cost[0], cost[1], cost[2], cost[3], cost[4]] })
    } else {
        None
    }
}

pub open spec fn cards_of_rows(rows: Seq<Seq<Seq<char>>>) -> Option<Seq<Card>>
    decreases rows.len(),
{
    if rows.len() == 0 {
        Some(seq![])
    } else {
        match (cards_of_rows(rows.drop_last()), card_of(rows.last())) {
            (Some(cs), Some(c)) => Some(cs.push(c)),
            _ => None,
        }
    }
}

pub open spec fn nobles_of_rows(rows: Seq<Seq<Seq<char>>>) -> Option<Seq<Noble>>
    decreases rows.len(),
{
    if rows.len() == 0 {
        Some(seq![])
    } else {
        match (nobles_of_rows(rows.drop_last()), noble_of(rows.last())) {
            (Some(ns), Some(n)) => Some(ns.push(n)),
            _ => None,
        }
    }
}

proof fn lemma_digits_grow(s: Seq<char>, radix: int, k: int)
    requires
        radix == 10 || radix == 16,
        all_digits(s, radix),
        0 <= k <= s.len(),
    ensures
        0 <= digits_value(s.take(k), radix) <= digits_value(s, radix),
    decreases s.len(),
{
    if k < s.len() {
        assert(s.drop_last().take(k) =~= s.take(k));
        assert(all_digits(s.drop_last(), radix));
        lemma_digits_grow(s.drop_last(), radix, k);
        assert(digit_value(s[s.len() - 1], radix) >= 0);
        assert(digits_value(s.drop_last(), radix) * radix >= digits_value(s.drop_last(), radix))
            by (nonlinear_arith)
            requires
                digits_value(s.drop_last(), radix) >= 0,
                radix >= 10,
        ;
    } else {
        assert(s.take(k) =~= s);
        if s.len() > 0 {
            lemma_digits_grow(s.drop_last(), radix, s.len() - 1);
            assert(s.drop_last().take(s.len() - 1) =~= s.drop_last());
            assert(digit_value(s[s.len() - 1], radix) >= 0);
            assert(digits_value(s.drop_last(), radix) * radix >= 0) by (nonlinear_arith)
                requires
                    digits_value(s.drop_last(), radix) >= 0,
                    radix >= 10,
            ;
        }
    }
}

fn digit_of(c: char, radix: u32) -> (r: Option<u32>)
    requires
        radix == 10 || radix == 16,
    ensures
        digit_value(c, radix as int) >= 0 ==> r == Some(digit_value(c, radix as int) as u32),
        digit_value(c, radix as int) < 0 ==> r is None,
{
    if '0' <= c && c <= '9' {
        Some(c as u32 - '0' as u32)
    } else if radix == 16 && 'a' <= c && c <= 'f' {
        Some(c as u32 - 'a' as u32 + 10)
    } else if radix == 16 && 'A' <= c && c <= 'F' {
        Some(c as u32 - 'A' as u32 + 10)
    } else {
        None
    }
}

/// Reads a byte as `byte_of` describes it.
pub fn parse_byte(s: &str) -> (r: Option<u8>)
    ensures
        r == byte_of(s@),
{
    let n = s.unicode_len();
    let hex = n >= 2 && s.get_char(0) == '0' && s.get_char(1) == 'x';
    let radix: u32 = if hex {
        16
    } else {
        10
    };
    let mut i: usize = if hex {
        2
    } else {
        0
    };
    if i < n && s.get_char(i) == '+' {
        i = i + 1;
    }
    let ghost t = if hex {
        s@.skip(2)
    } else {
        s@
    };
    let ghost u = if t.len() > 0 && t[0] == '+' {
        t.skip(1)
    } else {
        t
    };
    let start = i;
    proof {
        assert(u =~= s@.skip(start as int));
        assert(hex == (s@.len() >= 2 && s@[0] == '0' && s@[1] == 'x'));
        assert(byte_of(s@) == if u.len() > 0 && all_digits(u, radix as int) && digits_value(
            u,
            radix as int,
        ) <= u8::MAX {
            Some(digits_value(u, radix as int) as u8)
        } else {
            None::<u8>
        });
    }
    if start >= n {
        return None;
    }
    let mut value: u32 = 0;
    while i < n
        invariant
            start <= i <= n,
            n == s@.len(),
            start < n,
            radix == 10 || radix == 16,
            u == s@.skip(start as int),
            all_digits(u.take(i - start), radix as int),
            value == digits_value(u.take(i - start), radix as int),
            value <= u8::MAX,
            byte_of(s@) == if u.len() > 0 && all_digits(u, radix as int) && digits_value(
                u,
                radix as int,
            ) <= u8::MAX {
                Some(digits_value(u, radix as int) as u8)
            } else {
                None::<u8>
            },
        decreases n - i,
    {
        let c = s.get_char(i);
        let ghost k = i - start;
        proof {
            assert(u[k] == c);
            assert(u.take(k + 1).drop_last() =~= u.take(k));
            assert(u.take(k + 1).last() == c);
        }
        match digit_of(c, radix) {
            None => {
                proof {
                    assert(!all_digits(u, radix as int)) by {
                        assert(digit_value(u[k], radix as int) < 0);
                    }
                }
                return None;
            },
            Some(d) => {
                value = value * radix + d;
                proof {
                    assert(all_digits(u.take(k + 1), radix as int)) by {
                        assert forall|m: int| 0 <= m < k + 1 implies digit_value(
                            #[trigger] u.take(k + 1)[m],
                            radix as int,
                        ) >= 0 by {
                            if m < k {
                                assert(u.take(k + 1)[m] == u.take(k)[m]);
                            }
                        }
                    }
                }
                if value > 255 {
                    proof {
                        if all_digits(u, radix as int) {
                            lemma_digits_grow(u, radix as int, k + 1);
                        }
                    }
                    return None;
                }
            },
        }
        i += 1;
    }
    proof {
        assert(u.take(i - start) =~= u);
    }
    Some(value as u8)
}

fn is_word(s: &str, w: &[char]) -> (r: bool)
    ensures
        r == (s@ == w@),
{
    let n = s.unicode_len();
    if n != w.len() {
        return false;
    }
    let mut i: usize = 0;
    while i < n
        invariant
            0 <= i <= n,
            n == s@.len(),
            n == w@.len(),
            forall|k: int| 0 <= k < i ==> s@[k] == w@[k],
        decreases n - i,
    {
        if s.get_char(i) != w[i] {
            return false;
        }
        i += 1;
    }
    assert(s@ =~= w@);
    true
}

/// Reads a color by its lowercase name.
pub fn parse_color(s: &str) -> (r: Option<Color>)
    ensures
        r == color_named(s@),
{
    let white = ['w', 'h', 'i', 't', 'e'];
    let blue = ['b', 'l', 'u', 'e'];
    let green = ['g', 'r', 'e', 'e', 'n'];
    let red = ['r', 'e', 'd'];
    let black = ['b', 'l', 'a', 'c', 'k'];
    let gold = ['g', 'o', 'l', 'd'];
    assert(white@ =~= seq!['w', 'h', 'i', 't', 'e']);
    assert(blue@ =~= seq!['b', 'l', 'u', 'e']);
    assert(green@ =~= seq!['g', 'r', 'e', 'e', 'n']);
    assert(red@ =~= seq!['r', 'e', 'd']);
    assert(black@ =~= seq!['b', 'l', 'a', 'c', 'k']);
    assert(gold@ =~= seq!['g', 'o', 'l', 'd']);
    if is_word(s, &white) {
        Some(Color::White)
    } else if is_word(s, &blue) {
        Some(Color::Blue)
    } else if is_word(s, &green) {
        Some(Color::Green)
    } else if is_word(s, &red) {
        Some(Color::Red)
    } else if is_word(s, &black) {
        Some(Color::Black)
    } else if is_word(s, &gold) {
        Some(Color::Gold)
    } else {
        None
    }
}

pub open spec fn field_views(f: Seq<String>) -> Seq<Seq<char>> {
    f.map_values(|s: String| s@)
}

fn parse_cost(f: &Vec<String>, from: usize) -> (r: Option<[u8; 5]>)
    requires
        from <= 3,
        from + 5 <= f@.len(),
    ensures
        cost_of(field_views(f@), from as int) matches Some(c) ==> (r matches Some(a) && a@ == c),
        cost_of(field_views(f@), from as int) is None ==> r is None,
{
    let ghost fv = field_views(f@);
    let mut cost: [u8; 5] = [0, 0, 0, 0, 0];
    let mut k: usize = 0;
    while k < 5
        invariant
            0 <= k <= 5,
            from <= 3,
            from + 5 <= f@.len(),
            fv == field_views(f@),
            forall|m: int| 0 <= m < k ==> byte_of(fv[from + m]) == Some(#[trigger] cost@[m]),
        decreases 5 - k,
    {
        match parse_byte(f[from + k].as_str()) {
            Some(b) => {
                cost[k] = b;
            },
            None => {
                assert(byte_of(fv[from + k]) is None);
                return None;
            },
        }
        k += 1;
    }
    proof {
        assert forall|m: int| from <= m < from + 5 implies (#[trigger] byte_of(fv[m])) is Some by {
            assert(byte_of(fv[from + (m - from)]) == Some(cost@[m - from]));
        }
        let c = cost_of(fv, from as int)->0;
        assert(cost@ =~= c);
    }
    Some(cost)
}

/// Reads a card row as `card_of` describes it.
pub fn card_from_fields(f: &Vec<String>) -> (r: Option<Card>)
    ensures
        r == card_of(field_views(f@)),
{
    let ghost fv = field_views(f@);
    if f.len() != 8 {
        return None;
    }
    let level = match parse_byte(f[0].as_str()) {
        Some(v) => v,
        None => {
            return None;
        },
    };
    let color = match parse_color(f[1].as_str()) {
        Some(c) => c,
        None => {
            return None;
        },
    };
    let vp = match parse_byte(f[2].as_str()) {
        Some(v) => v,
        None => {
            return None;
        },
    };
    let cost = match parse_cost(f, 3) {
        Some(c) => c,
        None => {
            return None;
        },
    };
    let card = Card { level: level as usize, color, vp, cost };
    proof {
        let c = cost_of(fv, 3)->0;
        assert(cost == [c[0], c[1], c[2], c[3], c[4]]) by {
            assert(cost@ =~= [c[0], c[1], c[2], c[3], c[4]]@);
        }
    }
    Some(card)
}

/// Reads a noble row as `noble_of` describes it.
pub fn noble_from_fields(f: &Vec<String>) -> (r: Option<Noble>)
    ensures
        r == noble_of(field_views(f@)),
{
    let ghost fv = field_views(f@);
    if f.len() != 6 {
        return None;
    }
    let vp = match parse_byte(f[0].as_str()) {
        Some(v) => v,
        None => {
            return None;
        },
    };
    let cost = match parse_cost(f, 1) {
        Some(c) => c,
        None => {
            return None;
        },
    };
    proof {
        let c = cost_of(fv, 1)->0;
        assert(cost == [c[0], c[1], c[2], c[3], c[4]]) by {
            assert(cost@ =~= [c[0], c[1], c[2], c[3], c[4]]@);
        }
    }
    Some(Noble { vp, cost })
}

/// Reads card rows; none if any row is not a card.
pub fn cards_from_records(rows: &Vec<Vec<String>>) -> (r: Option<Vec<Card>>)
    ensures
        cards_of_rows(fields_of(rows@)) matches Some(cs) ==> (r matches Some(v) && v@ == cs),
        cards_of_rows(fields_of(rows@)) is None ==> r is None,
{
    let ghost all = fields_of(rows@);
    let mut out: Vec<Card> = Vec::new();
    let mut k: usize = 0;
    while k < rows.len()
        invariant
            0 <= k <= rows@.len(),
            all == fields_of(rows@),
            cards_of_rows(all.take(k as int)) == Some(out@),
        decreases rows@.len() - k,
    {
        proof {
            assert(all.take(k + 1).drop_last() =~= all.take(k as int));
            assert(all.take(k + 1).last() == field_views(rows@[k as int]@));
        }
        match card_from_fields(&rows[k]) {
            Some(c) => {
                out.push(c);
            },
            None => {
                proof {
                    lemma_rows_fail_cards(all, k as int + 1);
                }
                return None;
            },
        }
        k += 1;
    }
    proof {
        assert(all.take(k as int) =~= all);
    }
    Some(out)
}

/// Reads noble rows; none if any row is not a noble.
pub fn nobles_from_records(rows: &Vec<Vec<String>>) -> (r: Option<Vec<Noble>>)
    ensures
        nobles_of_rows(fields_of(rows@)) matches Some(ns) ==> (r matches Some(v) && v@ == ns),
        nobles_of_rows(fields_of(rows@)) is None ==> r is None,
{
    let ghost all = fields_of(rows@);
    let mut out: Vec<Noble> = Vec::new();
    let mut k: usize = 0;
    while k < rows.len()
        invariant
            0 <= k <= rows@.len(),
            all == fields_of(rows@),
            nobles_of_rows(all.take(k as int)) == Some(out@),
        decreases rows@.len() - k,
    {
        proof {
            assert(all.take(k + 1).drop_last() =~= all.take(k as int));
            assert(all.take(k + 1).last() == field_views(rows@[k as int]@));
        }
        match noble_from_fields(&rows[k]) {
            Some(n) => {
                out.push(n);
            },
            None => {
                proof {
                    lemma_rows_fail_nobles(all, k as int + 1);
                }
                return None;
            },
        }
        k += 1;
    }
    proof {
        assert(all.take(k as int) =~= all);
    }
    Some(out)
}

/// A bad row among the first `k` spoils the whole list.
proof fn lemma_rows_fail_cards(rows: Seq<Seq<Seq<char>>>, k: int)
    requires
        0 < k <= rows.len(),
        cards_of_rows(rows.take(k)) is None,
    ensures
        cards_of_rows(rows) is None,
    decreases rows.len() - k,
{
    if k < rows.len() {
        assert(rows.take(k + 1).drop_last() =~= rows.take(k));
        lemma_rows_fail_cards(rows, k + 1);
    } else {
        assert(rows.take(k) =~= rows);
    }
}

proof fn lemma_rows_fail_nobles(rows: Seq<Seq<Seq<char>>>, k: int)
    requires
        0 < k <= rows.len(),
        nobles_of_rows(rows.take(k)) is None,
    ensures
        nobles_of_rows(rows) is None,
    decreases rows.len() - k,
{
    if k < rows.len() {
        assert(rows.take(k + 1).drop_last() =~= rows.take(k));
        lemma_rows_fail_nobles(rows, k + 1);
    } else {
        assert(rows.take(k) =~= rows);
    }
}

/// Reads card definitions from CSV text with a header line.
pub fn cards_from_csv(data: &str) -> (r: Result<Vec<Card>, LoadError>)
    ensures
        csv_rows(data@) is None ==> r == Err::<Vec<Card>, LoadError>(LoadError::Malformed),
        csv_rows(data@) matches Some(rows) ==> match cards_of_rows(rows) {
            Some(cs) => r matches Ok(v) && v@ == cs,
            None => r == Err::<Vec<Card>, LoadError>(LoadError::BadRow),
        },
{
    match read_records(data) {
        Err(_) => Err(LoadError::Malformed),
        Ok(rows) => match cards_from_records(&rows) {
            Some(v) => Ok(v),
            None => Err(LoadError::BadRow),
        },
    }
}

/// Reads noble definitions from CSV text with a header line.
pub fn nobles_from_csv(data: &str) -> (r: Result<Vec<Noble>, LoadError>)
    ensures
        csv_rows(data@) is None ==> r == Err::<Vec<Noble>, LoadError>(LoadError::Malformed),
        csv_rows(data@) matches Some(rows) ==> match nobles_of_rows(rows) {
            Some(ns) => r matches Ok(v) && v@ == ns,
            None => r == Err::<Vec<Noble>, LoadError>(LoadError::BadRow),
        },
{
    match read_records(data) {
        Err(_) => Err(LoadError::Malformed),
        Ok(rows) => match nobles_from_records(&rows) {
            Some(v) => Ok(v),
            None => Err(LoadError::BadRow),
        },
    }
}

} // verus!
