use vstd::prelude::*;
use vstd::string::StringExecFns;

use crate::item::GearStats;

verus! {

/// The character of a decimal digit.
pub open spec fn digit_char(d: int) -> char {
    if d == 0 {
        '0'
    } else if d == 1 {
        '1'
    } else if d == 2 {
        '2'
    } else if d == 3 {
        '3'
    } else if d == 4 {
        '4'
    } else if d == 5 {
        '5'
    } else if d == 6 {
        '6'
    } else if d == 7 {
        '7'
    } else if d == 8 {
        '8'
    } else {
        '9'
    }
}

/// The decimal notation of a natural number, without leading zeros.
pub open spec fn decimal(n: nat) -> Seq<char>
    decreases n,
{
    if n < 10 {
        seq![digit_char(n as int)]
    } else {
        decimal(n / 10).push(digit_char((n % 10) as int))
    }
}

fn digit_str(d: u64) -> (s: &'static str)
    requires
        d < 10,
    ensures
        s@ == seq![digit_char(d as int)],
{
    proof {
        reveal_strlit("0");
        reveal_strlit("1");
        reveal_strlit("2");
        reveal_strlit("3");
        reveal_strlit("4");
        reveal_strlit("5");
        reveal_strlit("6");
        reveal_strlit("7");
        reveal_strlit("8");
        reveal_strlit("9");
    }
    match d {
        0 => "0",
        1 => "1",
        2 => "2",
        3 => "3",
        4 => "4",
        5 => "5",
        6 => "6",
        7 => "7",
        8 => "8",
        _ => "9",
    }
}

/// Appends the decimal notation of `n` to `out`.
pub fn push_decimal(out: &mut String, n: u64)
    ensures
        final(out)@ == old(out)@ + decimal(n as nat),
    decreases n,
{
    if n < 10 {
        out.append(digit_str(n));
    } else {
        push_decimal(out, n / 10);
        out.append(digit_str(n % 10));
        assert(decimal(n as nat) == decimal((n / 10) as nat).push(digit_char((n % 10) as int)));
    }
}

/// Decimal notation of `n`.
pub fn decimal_string(n: u64) -> (s: String)
    ensures
        s@ == decimal(n as nat),
{
    let mut s = String::new();
    push_decimal(&mut s, n);
    assert(s@ =~= decimal(n as nat));
    s
}

/// Two-digit notation (with a leading zero below ten) of a number under 100.
pub open spec fn two_digits(n: nat) -> Seq<char> {
    if n < 10 {
        seq!['0'] + decimal(n)
    } else {
        decimal(n)
    }
}

/// `m:ss` for a duration in milliseconds: whole minutes, then seconds in
/// two digits (`0:ss` below a minute).
pub open spec fn duration_text(ms: u64) -> Seq<char> {
    let total_s = ms / 1000;
    decimal((total_s / 60) as nat) + seq![':'] + two_digits((total_s % 60) as nat)
}

/// Format a duration in milliseconds as `m:ss` or `0:ss`.
pub fn format_duration(ms: u64) -> (s: String)
    ensures
        s@ == duration_text(ms),
{
    proof {
        reveal_strlit(":");
        reveal_strlit("0");
    }
    let total_s = ms / 1000;
    let m = total_s / 60;
    let sec = total_s % 60;
    let mut out = String::new();
    if m > 0 {
        push_decimal(&mut out, m);
    } else {
        out.append("0");
        assert(decimal(0) == seq!['0']);
    }
    out.append(":");
    if sec < 10 {
        out.append("0");
    }
    push_decimal(&mut out, sec);
    assert(out@ =~= duration_text(ms));
    out
}

/// Compact quantity label: `999`, `12k` from ten thousand on, `5M` from a million on.
pub open spec fn quantity_text(qty: u32) -> Seq<char> {
    if qty >= 1_000_000 {
        decimal((qty / 1_000_000) as nat) + seq!['M']
    } else if qty >= 10_000 {
        decimal((qty / 1_000) as nat) + seq!['k']
    } else {
        decimal(qty as nat)
    }
}

/// Format a quantity as a compact label: `999`, `12k`, `5M`.
pub fn format_quantity(qty: u32) -> (s: String)
    ensures
        s@ == quantity_text(qty),
{
    proof {
        reveal_strlit("M");
        reveal_strlit("k");
    }
    let mut out = String::new();
    if qty >= 1_000_000 {
        push_decimal(&mut out, (qty / 1_000_000) as u64);
        out.append("M");
    } else if qty >= 10_000 {
        push_decimal(&mut out, (qty / 1_000) as u64);
        out.append("k");
    } else {
        push_decimal(&mut out, qty as u64);
    }
    assert(out@ =~= quantity_text(qty));
    out
}

/// A signed bonus with its sign always shown: `+3`, `-2`, `+0`.
pub open spec fn signed_text(v: int) -> Seq<char> {
    if v >= 0 {
        seq!['+'] + decimal(v as nat)
    } else {
        seq!['-'] + decimal((-v) as nat)
    }
}

/// The label of one stat bonus, such as `STR +2`.
pub open spec fn bonus_text(label: Seq<char>, v: i32) -> Seq<char> {
    label + seq![' '] + signed_text(v as int)
}

/// Joins labels with three spaces between them.
pub open spec fn join_spaced(parts: Seq<Seq<char>>) -> Seq<char>
    decreases parts.len(),
{
    if parts.len() == 0 {
        Seq::empty()
    } else if parts.len() == 1 {
        parts[0]
    } else {
        join_spaced(parts.drop_last()) + seq![' ', ' ', ' '] + parts.last()
    }
}

/// The non-zero bonuses of a gear piece, in the order HP, STR, DEX, INT.
pub open spec fn gear_parts(stats: GearStats) -> Seq<Seq<char>> {
    (if stats.hp != 0 { seq![bonus_text("HP"@, stats.hp)] } else { Seq::empty() })
        + (if stats.strength != 0 { seq![bonus_text("STR"@, stats.strength)] } else { Seq::empty() })
        + (if stats.dexterity != 0 { seq![bonus_text("DEX"@, stats.dexterity)] } else { Seq::empty() })
        + (if stats.intellect != 0 { seq![bonus_text("INT"@, stats.intellect)] } else { Seq::empty() })
}

fn push_bonus(out: &mut String, parts: Ghost<Seq<Seq<char>>>, first: bool, label: &str, v: i32) -> (new_parts: Ghost<Seq<Seq<char>>>)
    requires
        old(out)@ == join_spaced(parts@),
        first == (parts@.len() == 0),
        v != 0,
    ensures
        new_parts@ == parts@.push(bonus_text(label@, v)),
        final(out)@ == join_spaced(new_parts@),
{
    proof {
        reveal_strlit("   ");
        reveal_strlit(" ");
        reveal_strlit("+");
        reveal_strlit("-");
    }
    let ghost before = out@;
    if !first {
        out.append("   ");
    }
    out.append(label);
    out.append(" ");
    if v >= 0 {
        out.append("+");
        push_decimal(out, v as u64);
    } else {
        out.append("-");
        let magnitude: u64 = if v == i32::MIN { 2_147_483_648 } else { (-v) as u64 };
        push_decimal(out, magnitude);
    }
    let ghost np = parts@.push(bonus_text(label@, v));
    proof {
        assert(np.drop_last() =~= parts@);
        if parts@.len() > 0 {
            assert(out@ =~= before + seq![' ', ' ', ' '] + bonus_text(label@, v));
        } else {
            assert(out@ =~= bonus_text(label@, v));
        }
    }
    Ghost(np)
}

/// Gear stat bonuses as a line such as `HP +2   STR +1`; zero bonuses are left out.
pub fn format_gear_stats(stats: &GearStats) -> (s: String)
    ensures
        s@ == join_spaced(gear_parts(*stats)),
{
    let mut out = String::new();
    let mut parts: Ghost<Seq<Seq<char>>> = Ghost(Seq::empty());
    let mut first = true;
    assert(out@ =~= join_spaced(parts@));
    if stats.hp != 0 {
        parts = push_bonus(&mut out, parts, first, "HP", stats.hp);
        first = false;
    }
    if stats.strength != 0 {
        parts = push_bonus(&mut out, parts, first, "STR", stats.strength);
        first = false;
    }
    if stats.dexterity != 0 {
        parts = push_bonus(&mut out, parts, first, "DEX", stats.dexterity);
        first = false;
    }
    if stats.intellect != 0 {
        parts = push_bonus(&mut out, parts, first, "INT", stats.intellect);
        first = false;
    }
    assert(parts@ =~= gear_parts(*stats));
    out
}

/// A bonus written tight, sign first, such as `+2STR`.
pub open spec fn tight_text(label: Seq<char>, v: i32) -> Seq<char> {
    signed_text(v as int) + label
}

/// Joins labels with one space between them.
pub open spec fn join_single(parts: Seq<Seq<char>>) -> Seq<char>
    decreases parts.len(),
{
    if parts.len() == 0 {
        Seq::empty()
    } else if parts.len() == 1 {
        parts[0]
    } else {
        join_single(parts.drop_last()) + seq![' '] + parts.last()
    }
}

/// The non-zero bonuses of a gear piece written tight, in the order HP, STR, DEX, INT.
pub open spec fn tight_parts(stats: GearStats) -> Seq<Seq<char>> {
    (if stats.hp != 0 { seq![tight_text("HP"@, stats.hp)] } else { Seq::empty() })
        + (if stats.strength != 0 { seq![tight_text("STR"@, stats.strength)] } else { Seq::empty() })
        + (if stats.dexterity != 0 { seq![tight_text("DEX"@, stats.dexterity)] } else { Seq::empty() })
        + (if stats.intellect != 0 { seq![tight_text("INT"@, stats.intellect)] } else { Seq::empty() })
}

fn push_tight(out: &mut String, parts: Ghost<Seq<Seq<char>>>, first: bool, label: &str, v: i32) -> (new_parts: Ghost<Seq<Seq<char>>>)
    requires
        old(out)@ == join_single(parts@),
        first == (parts@.len() == 0),
        v != 0,
    ensures
        new_parts@ == parts@.push(tight_text(label@, v)),
        final(out)@ == join_single(new_parts@),
{
    proof {
        reveal_strlit(" ");
        reveal_strlit("+");
        reveal_strlit("-");
    }
    let ghost before = out@;
    if !first {
        out.append(" ");
    }
    if v >= 0 {
        out.append("+");
        push_decimal(out, v as u64);
    } else {
        out.append("-");
        let magnitude: u64 = if v == i32::MIN { 2_147_483_648 } else { (-v) as u64 };
        push_decimal(out, magnitude);
    }
    out.append(label);
    let ghost np = parts@.push(tight_text(label@, v));
    proof {
        assert(np.drop_last() =~= parts@);
        if parts@.len() > 0 {
            assert(out@ =~= before + seq![' '] + tight_text(label@, v));
        } else {
            assert(out@ =~= tight_text(label@, v));
        }
    }
    Ghost(np)
}

/// Gear stat bonuses as a short hint such as `+2HP -1DEX`, as shown beside
/// equipped gear and in the item picker; zero bonuses are left out.
pub fn gear_hint(stats: &GearStats) -> (s: String)
    ensures
        s@ == join_single(tight_parts(*stats)),
{
    let mut out = String::new();
    let mut parts: Ghost<Seq<Seq<char>>> = Ghost(Seq::empty());
    let mut first = true;
    assert(out@ =~= join_single(parts@));
    if stats.hp != 0 {
        parts = push_tight(&mut out, parts, first, "HP", stats.hp);
        first = false;
    }
    if stats.strength != 0 {
        parts = push_tight(&mut out, parts, first, "STR", stats.strength);
        first = false;
    }
    if stats.dexterity != 0 {
        parts = push_tight(&mut out, parts, first, "DEX", stats.dexterity);
        first = false;
    }
    if stats.intellect != 0 {
        parts = push_tight(&mut out, parts, first, "INT", stats.intellect);
        first = false;
    }
    assert(parts@ =~= tight_parts(*stats));
    out
}

// ── Word wrapping ─────────────────────────────────────────────────────────

/// Unicode white space (the characters Rust's `char::is_whitespace` accepts).
pub open spec fn is_space(c: char) -> bool {
    let n = c as u32;
    (0x09 <= n <= 0x0d) || n == 0x20 || n == 0x85 || n == 0xa0 || n == 0x1680 || (0x2000 <= n <= 0x200a)
        || n == 0x2028 || n == 0x2029 || n == 0x202f || n == 0x205f || n == 0x3000
}

/// Bytes a character takes in UTF-8.
pub open spec fn utf8_len(c: char) -> int {
    let n = c as u32;
    if n < 0x80 {
        1
    } else if n < 0x800 {
        2
    } else if n < 0x10000 {
        3
    } else {
        4
    }
}

/// Bytes a string takes in UTF-8.
pub open spec fn utf8_bytes(s: Seq<char>) -> int
    decreases s.len(),
{
    if s.len() == 0 {
        0
    } else {
        utf8_bytes(s.drop_last()) + utf8_len(s.last())
    }
}

/// Scanning the first `n` characters: the words completed so far and the
/// run of non-space characters still open.
pub open spec fn split_state(s: Seq<char>, n: int) -> (Seq<Seq<char>>, Seq<char>)
    decreases n,
{
    if n <= 0 || n > s.len() {
        (Seq::empty(), Seq::empty())
    } else {
        let (done, open) = split_state(s, n - 1);
        let c = s[n - 1];
        if is_space(c) {
            if open.len() > 0 {
                (done.push(open), Seq::empty())
            } else {
                (done, Seq::empty())
            }
        } else {
            (done, open.push(c))
        }
    }
}

/// The words of a text: its maximal runs of non-space characters.
pub open spec fn words(s: Seq<char>) -> Seq<Seq<char>> {
    let (done, open) = split_state(s, s.len() as int);
    if open.len() > 0 {
        done.push(open)
    } else {
        done
    }
}

/// Greedy line filling: the finished lines and the line being filled after
/// placing each word in turn. A word joins the current line (after one space)
/// while the line stays within `width` bytes; otherwise it starts a new line.
pub open spec fn wrap_fold(ws: Seq<Seq<char>>, width: int) -> (Seq<Seq<char>>, Seq<char>)
    decreases ws.len(),
{
    if ws.len() == 0 {
        (Seq::empty(), Seq::empty())
    } else {
        let (lines, cur) = wrap_fold(ws.drop_last(), width);
        let w = ws.last();
        if cur.len() == 0 {
            (lines, w)
        } else if utf8_bytes(cur) + 1 + utf8_bytes(w) <= width {
            (lines, cur + seq![' '] + w)
        } else {
            (lines.push(cur), w)
        }
    }
}

/// The lines of a text wrapped to `width` bytes (the whole text as one line
/// for width zero).
pub open spec fn wrapped(text: Seq<char>, width: int) -> Seq<Seq<char>> {
    if width == 0 {
        seq![text]
    } else {
        let (lines, cur) = wrap_fold(words(text), width);
        if cur.len() > 0 {
            lines.push(cur)
        } else {
            lines
        }
    }
}

proof fn lemma_utf8_bytes_concat(a: Seq<char>, b: Seq<char>)
    ensures
        utf8_bytes(a + b) == utf8_bytes(a) + utf8_bytes(b),
    decreases b.len(),
{
    if b.len() > 0 {
        lemma_utf8_bytes_concat(a, b.drop_last());
        assert((a + b).drop_last() =~= a + b.drop_last());
    } else {
        assert(a + b =~= a);
    }
}

proof fn lemma_utf8_bytes_bounds(s: Seq<char>)
    ensures
        s.len() <= utf8_bytes(s) <= 4 * s.len(),
    decreases s.len(),
{
    if s.len() > 0 {
        lemma_utf8_bytes_bounds(s.drop_last());
    }
}

fn char_bytes(c: char) -> (n: u128)
    ensures
        n == utf8_len(c),
{
    let v = c as u32;
    if v < 0x80 {
        1
    } else if v < 0x800 {
        2
    } else if v < 0x10000 {
        3
    } else {
        4
    }
}

fn char_is_space(c: char) -> (b: bool)
    ensures
        b == is_space(c),
{
    let n = c as u32;
    (0x09 <= n && n <= 0x0d) || n == 0x20 || n == 0x85 || n == 0xa0 || n == 0x1680 || (0x2000 <= n && n <= 0x200a)
        || n == 0x2028 || n == 0x2029 || n == 0x202f || n == 0x205f || n == 0x3000
}

/// Places one word on the lines being built.
fn place_word(
    out: &mut Vec<String>,
    current: &mut String,
    cur_bytes: &mut u128,
    word: &str,
    word_bytes: u128,
    width: usize,
    placed: Ghost<Seq<Seq<char>>>,
    bound: Ghost<int>,
)
    requires
        word@.len() > 0,
        word_bytes == utf8_bytes(word@),
        *old(cur_bytes) == utf8_bytes(old(current)@),
        (old(out)@.map_values(|l: String| l@), old(current)@) == wrap_fold(placed@, width as int),
        0 <= bound@ <= 4 * usize::MAX,
        *old(cur_bytes) <= bound@ + width,
        word_bytes <= bound@,
    ensures
        (final(out)@.map_values(|l: String| l@), final(current)@) == wrap_fold(placed@.push(word@), width as int),
        *final(cur_bytes) == utf8_bytes(final(current)@),
        *final(cur_bytes) <= bound@ + width,
{
    let ghost ws = placed@.push(word@);
    proof {
        assert(ws.drop_last() =~= placed@);
        lemma_utf8_bytes_bounds(current@);
        lemma_utf8_bytes_bounds(word@);
    }
    if *cur_bytes == 0 {
        *current = word.to_string();
        *cur_bytes = word_bytes;
    } else if *cur_bytes + 1 + word_bytes <= width as u128 {
        current.append(" ");
        current.append(word);
        *cur_bytes = *cur_bytes + 1 + word_bytes;
        proof {
            reveal_strlit(" ");
            lemma_utf8_bytes_concat(old(current)@, seq![' ']);
            lemma_utf8_bytes_concat(old(current)@ + seq![' '], word@);
            assert(utf8_bytes(seq![' ']) == 1) by {
                let sp = seq![' '];
                assert(sp.drop_last() =~= Seq::<char>::empty());
                assert(sp.last() == ' ');
                assert((' ' as u32) == 32u32);
                assert(utf8_len(' ') == 1);
                assert(utf8_bytes(sp) == utf8_bytes(sp.drop_last()) + utf8_len(sp.last()));
            }
            assert(current@ =~= old(current)@ + seq![' '] + word@);
        }
    } else {
        let mut line = word.to_string();
        std::mem::swap(&mut line, current);
        out.push(line);
        *cur_bytes = word_bytes;
        proof {
            assert(out@.map_values(|l: String| l@) =~= old(out)@.map_values(|l: String| l@).push(old(current)@));
        }
    }
}

/// Word-wrap text to a maximum line width in bytes. Words are the runs of
/// non-space characters; each line holds as many words as fit, separated
/// by single spaces; a word longer than the width gets a line of its own.
pub fn wrap_text(text: &str, width: usize) -> (lines: Vec<String>)
    ensures
        lines@.map_values(|l: String| l@) == wrapped(text@, width as int),
{
    if width == 0 {
        let mut single: Vec<String> = Vec::new();
        single.push(text.to_string());
        assert(single@.map_values(|l: String| l@) =~= seq![text@]);
        return single;
    }
    let n = text.unicode_len();
    let mut out: Vec<String> = Vec::new();
    let mut current = String::new();
    let mut cur_bytes: u128 = 0;
    let mut open_bytes: u128 = 0;
    let mut start: usize = 0;
    let mut i: usize = 0;
    assert(out@.map_values(|l: String| l@) =~= Seq::<Seq<char>>::empty());
    assert(text@.subrange(0, 0) =~= Seq::<char>::empty());
    while i < n
        invariant
            n == text@.len(),
            width > 0,
            start <= i <= n,
            split_state(text@, i as int).1 == text@.subrange(start as int, i as int),
            open_bytes == utf8_bytes(text@.subrange(start as int, i as int)),
            (out@.map_values(|l: String| l@), current@) == wrap_fold(split_state(text@, i as int).0, width as int),
            cur_bytes == utf8_bytes(current@),
            cur_bytes <= 4 * n + width,
        decreases n - i,
    {
        let c = text.get_char(i);
        let ghost open = text@.subrange(start as int, i as int);
        proof {
            assert(text@[i as int] == c);
            lemma_utf8_bytes_bounds(open);
        }
        if char_is_space(c) {
            if i > start {
                let word = text.substring_char(start, i);
                let ghost placed = split_state(text@, i as int).0;
                place_word(&mut out, &mut current, &mut cur_bytes, word, open_bytes, width, Ghost(placed), Ghost(4 * n as int));
                proof {
                    assert(split_state(text@, i + 1) == (placed.push(open), Seq::<char>::empty()));
                }
            }
            start = i + 1;
            open_bytes = 0;
            proof {
                assert(text@.subrange(start as int, (i + 1) as int) =~= Seq::<char>::empty());
            }
        } else {
            open_bytes = open_bytes + char_bytes(c);
            proof {
                assert(text@.subrange(start as int, i + 1) =~= open.push(c));
                assert(text@.subrange(start as int, i + 1).drop_last() =~= open);
            }
        }
        i += 1;
    }
    let ghost open = text@.subrange(start as int, n as int);
    proof {
        lemma_utf8_bytes_bounds(open);
    }
    if start < n {
        let word = text.substring_char(start, n);
        let ghost placed = split_state(text@, n as int).0;
        place_word(&mut out, &mut current, &mut cur_bytes, word, open_bytes, width, Ghost(placed), Ghost(4 * n as int));
    }
    proof {
        lemma_utf8_bytes_bounds(current@);
    }
    if cur_bytes > 0 {
        out.push(current);
    }
    assert(out@.map_values(|l: String| l@) =~= wrapped(text@, width as int));
    out
}

} // verus!
