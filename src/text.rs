use vstd::prelude::*;
use vstd::string::StringExecFns;

use crate::addresses::{get_name_pointer, NamePointer};
use crate::reader::{
    advanced, lemma_span_inner, rom_bytes, rom_u16, rom_u8, span_readable, Addr, Reader,
    RomError,
};

verus! {

/// Appends `t` to `s`.
pub(crate) fn append(s: &mut String, t: &str)
    ensures
        final(s)@ == old(s)@ + t@,
{
    s.append(t);
}

/// Codes of the character table.
pub open spec fn known_chr(c: u8) -> bool {
    c == 0x49 || c == 0x4e || c == 0x4f || (0x51 <= c <= 0x55) || (0x7f <= c <= 0xbf) || (0xe0
        <= c <= 0xe8) || 0xef <= c
}

/// Text of a character code (empty for a code outside the table).
pub open spec fn chr_text(c: u8) -> Seq<char> {
    match c {
        0x49 => "\n"@,
        0x4E => "\n"@,
        0x4F => "\n"@,
        0x51 => "\n\n"@,
        0x52 => "<PlayerName>"@,
        0x53 => "<RivalName>"@,
        0x54 => "POK\u{c9}"@,
        0x55 => "\n"@,
        0x7F => " "@,
        0x80 => "A"@,
        0x81 => "B"@,
        0x82 => "C"@,
        0x83 => "D"@,
        0x84 => "E"@,
        0x85 => "F"@,
        0x86 => "G"@,
        0x87 => "H"@,
        0x88 => "I"@,
        0x89 => "J"@,
        0x8A => "K"@,
        0x8B => "L"@,
        0x8C => "M"@,
        0x8D => "N"@,
        0x8E => "O"@,
        0x8F => "P"@,
        0x90 => "Q"@,
        0x91 => "R"@,
        0x92 => "S"@,
        0x93 => "T"@,
        0x94 => "U"@,
        0x95 => "V"@,
        0x96 => "W"@,
        0x97 => "X"@,
        0x98 => "Y"@,
        0x99 => "Z"@,
        0x9A => "("@,
        0x9B => ")"@,
        0x9C => ":"@,
        0x9D => ";"@,
        0x9E => "]"@,
        0x9F => "["@,
        0xA0 => "a"@,
        0xA1 => "b"@,
        0xA2 => "c"@,
        0xA3 => "d"@,
        0xA4 => "e"@,
        0xA5 => "f"@,
        0xA6 => "g"@,
        0xA7 => "h"@,
        0xA8 => "i"@,
        0xA9 => "j"@,
        0xAA => "k"@,
        0xAB => "l"@,
        0xAC => "m"@,
        0xAD => "n"@,
        0xAE => "o"@,
        0xAF => "p"@,
        0xB0 => "q"@,
        0xB1 => "r"@,
        0xB2 => "s"@,
        0xB3 => "t"@,
        0xB4 => "u"@,
        0xB5 => "v"@,
        0xB6 => "w"@,
        0xB7 => "x"@,
        0xB8 => "y"@,
        0xB9 => "z"@,
        0xBA => "\u{c9}"@,
        0xBB => "'d"@,
        0xBC => "'l"@,
        0xBD => "'s"@,
        0xBE => "'t"@,
        0xBF => "'v"@,
        0xE0 => "'"@,
        0xE1 => "PK"@,
        0xE2 => "MN"@,
        0xE3 => "-"@,
        0xE4 => "'r"@,
        0xE5 => "'m"@,
        0xE6 => "?"@,
        0xE7 => "!"@,
        0xE8 => "."@,
        0xEF => "\u{2642}"@,
        0xF0 => "$"@,
        0xF1 => "x"@,
        0xF2 => "."@,
        0xF3 => "/"@,
        0xF4 => ","@,
        0xF5 => "\u{2640}"@,
        0xF6 => "0"@,
        0xF7 => "1"@,
        0xF8 => "2"@,
        0xF9 => "3"@,
        0xFA => "4"@,
        0xFB => "5"@,
        0xFC => "6"@,
        0xFD => "7"@,
        0xFE => "8"@,
        0xFF => "9"@,
        _ => Seq::empty(),
    }
}

/// Text of a run of character codes, in order.
pub open spec fn chars_text(b: Seq<u8>) -> Seq<char>
    decreases b.len(),
{
    if b.len() == 0 {
        Seq::empty()
    } else {
        chars_text(b.drop_last()) + chr_text(b.last())
    }
}

/// Length of a fixed-size name of `n` bytes: up to the first 0x50, or `n`.
pub open spec fn fixed_len(b: Seq<u8>, n: int) -> int
    decreases n,
{
    if n <= 0 {
        0
    } else {
        let k = fixed_len(b, n - 1);
        if k < n - 1 {
            k
        } else if b[n - 1] == 0x50 {
            n - 1
        } else {
            n
        }
    }
}

/// Text of one character code: letters, digits, punctuation, line breaks
/// and a few placeholders. `None` for a code outside the table.
pub fn get_pkmn_chr(c: u8) -> (r: Option<&'static str>)
    ensures
        r is Some <==> known_chr(c),
        r is Some ==> r->Some_0@ == chr_text(c),
{
    match c {
        0x49 => Some("\n"),
        0x4E => Some("\n"),
        0x4F => Some("\n"),
        0x51 => Some("\n\n"),
        0x52 => Some("<PlayerName>"),
        0x53 => Some("<RivalName>"),
        0x54 => Some("POK\u{c9}"),
        0x55 => Some("\n"),
        0x7F => Some(" "),
        0x80 => Some("A"),
        0x81 => Some("B"),
        0x82 => Some("C"),
        0x83 => Some("D"),
        0x84 => Some("E"),
        0x85 => Some("F"),
        0x86 => Some("G"),
        0x87 => Some("H"),
        0x88 => Some("I"),
        0x89 => Some("J"),
        0x8A => Some("K"),
        0x8B => Some("L"),
        0x8C => Some("M"),
        0x8D => Some("N"),
        0x8E => Some("O"),
        0x8F => Some("P"),
        0x90 => Some("Q"),
        0x91 => Some("R"),
        0x92 => Some("S"),
        0x93 => Some("T"),
        0x94 => Some("U"),
        0x95 => Some("V"),
        0x96 => Some("W"),
        0x97 => Some("X"),
        0x98 => Some("Y"),
        0x99 => Some("Z"),
        0x9A => Some("("),
        0x9B => Some(")"),
        0x9C => Some(":"),
        0x9D => Some(";"),
        0x9E => Some("]"),
        0x9F => Some("["),
        0xA0 => Some("a"),
        0xA1 => Some("b"),
        0xA2 => Some("c"),
        0xA3 => Some("d"),
        0xA4 => Some("e"),
        0xA5 => Some("f"),
        0xA6 => Some("g"),
        0xA7 => Some("h"),
        0xA8 => Some("i"),
        0xA9 => Some("j"),
        0xAA => Some("k"),
        0xAB => Some("l"),
        0xAC => Some("m"),
        0xAD => Some("n"),
        0xAE => Some("o"),
        0xAF => Some("p"),
        0xB0 => Some("q"),
        0xB1 => Some("r"),
        0xB2 => Some("s"),
        0xB3 => Some("t"),
        0xB4 => Some("u"),
        0xB5 => Some("v"),
        0xB6 => Some("w"),
        0xB7 => Some("x"),
        0xB8 => Some("y"),
        0xB9 => Some("z"),
        0xBA => Some("\u{c9}"),
        0xBB => Some("'d"),
        0xBC => Some("'l"),
        0xBD => Some("'s"),
        0xBE => Some("'t"),
        0xBF => Some("'v"),
        0xE0 => Some("'"),
        0xE1 => Some("PK"),
        0xE2 => Some("MN"),
        0xE3 => Some("-"),
        0xE4 => Some("'r"),
        0xE5 => Some("'m"),
        0xE6 => Some("?"),
        0xE7 => Some("!"),
        0xE8 => Some("."),
        0xEF => Some("\u{2642}"),
        0xF0 => Some("$"),
        0xF1 => Some("x"),
        0xF2 => Some("."),
        0xF3 => Some("/"),
        0xF4 => Some(","),
        0xF5 => Some("\u{2640}"),
        0xF6 => Some("0"),
        0xF7 => Some("1"),
        0xF8 => Some("2"),
        0xF9 => Some("3"),
        0xFA => Some("4"),
        0xFB => Some("5"),
        0xFC => Some("6"),
        0xFD => Some("7"),
        0xFE => Some("8"),
        0xFF => Some("9"),
        _ => None,
    }
}

/// Codes that end a string: 0x50 (generic), 0x57 (signs), 0x5f (pokedex
/// descriptions).
pub open spec fn is_terminator(c: u8) -> bool {
    c == 0x57 || c == 0x50 || c == 0x5f
}

/// Decodes characters up to a terminator, which is consumed. An unknown
/// code is a format error.
/// The string at `a` ends with the terminator at byte `t`: the `t + 1`
/// bytes can be read, and every byte before the terminator is a known
/// character.
pub open spec fn text_at(s: Seq<u8>, a: Addr, t: int) -> bool {
    &&& 0 <= t
    &&& span_readable(s, a, t + 1)
    &&& is_terminator(rom_u8(s, a, t))
    &&& forall|i: int|
        0 <= i < t ==> !is_terminator(#[trigger] rom_u8(s, a, i)) && known_chr(rom_u8(s, a, i))
}

/// Some terminated string of known characters starts at `a`.
pub open spec fn text_ok(s: Seq<u8>, a: Addr) -> bool {
    exists|t: int| text_at(s, a, t)
}

/// Length of the string at `a`, up to its terminator.
pub open spec fn text_len(s: Seq<u8>, a: Addr) -> int {
    choose|t: int| text_at(s, a, t)
}

/// The decoded string at `a`.
pub open spec fn text_of(s: Seq<u8>, a: Addr) -> Seq<char> {
    chars_text(rom_bytes(s, a, 0, text_len(s, a)))
}

proof fn lemma_text_at_unique(s: Seq<u8>, a: Addr, t1: int, t2: int)
    requires
        text_at(s, a, t1),
        text_at(s, a, t2),
    ensures
        t1 == t2,
{
    if t1 < t2 {
        assert(!is_terminator(rom_u8(s, a, t1)));
    } else if t2 < t1 {
        assert(!is_terminator(rom_u8(s, a, t2)));
    }
}

pub fn get_text(reader: &mut Reader) -> (r: Result<String, RomError>)
    ensures
        final(reader).stream == old(reader).stream,
        r is Ok <==> text_ok(old(reader).stream@, old(reader).addr),
        !old(reader).can_read(1) ==> r == Err::<String, RomError>(RomError::Address),
        r is Ok ==> text_at(old(reader).stream@, old(reader).addr, text_len(old(reader).stream@, old(reader).addr))
            && r->Ok_0@ == text_of(old(reader).stream@, old(reader).addr)
            && final(reader).moved_from(*old(reader), text_len(old(reader).stream@, old(reader).addr) + 1),
{
    let mut text = String::new();
    let ghost a0 = reader.addr;
    let ghost s = reader.stream@;
    let ghost mut t: int = 0;
    loop
        invariant
            reader.stream == old(reader).stream,
            s == reader.stream@,
            a0 == old(reader).addr,
            0 <= t,
            t == 0 ==> reader.addr == a0,
            t > 0 ==> old(reader).can_read(t) && reader.addr == advanced(a0, t),
            t > 0 ==> old(reader).can_read(1) && !is_terminator(old(reader).byte(0)) && known_chr(
                old(reader).byte(0),
            ),
            forall|i: int| 0 <= i < t ==> !is_terminator(#[trigger] old(reader).byte(i)),
            forall|i: int| 0 <= i < t ==> known_chr(#[trigger] rom_u8(s, a0, i)),
            t == 0 ==> text@ == Seq::<char>::empty(),
            t > 0 ==> text@ == chars_text(rom_bytes(s, a0, 0, t)),
            reader.addr.addr < 0x8000 || reader.addr == old(reader).addr,
            reader.addr.addr >= old(reader).addr.addr,
        decreases 0x10000 - reader.addr.addr,
    {
        proof {
            if t > 0 {
                crate::reader::lemma_advanced_pos(a0, t);
            }
        }
        let c = match reader.read_u8() {
            Ok(c) => c,
            Err(e) => {
                proof {
                    if text_ok(s, a0) {
                        let t2 = choose|t2: int| text_at(s, a0, t2);
                        if t2 < t {
                            assert(!is_terminator(old(reader).byte(t2)));
                        } else {
                            lemma_span_inner(s, a0, t2 + 1, t);
                        }
                    }
                }
                return Err(e);
            },
        };
        proof {
            assert(rom_bytes(s, a0, 0, t + 1).drop_last() =~= rom_bytes(s, a0, 0, t));
            if t == 0 {
                assert(rom_bytes(s, a0, 0, 0) =~= Seq::<u8>::empty());
            }
        }
        if c == 0x57 || c == 0x50 || c == 0x5f {
            assert(old(reader).byte(t) == c);
            proof {
                assert(text_at(s, a0, t));
                lemma_text_at_unique(s, a0, t, text_len(s, a0));
            }
            return Ok(text);
        }
        match get_pkmn_chr(c) {
            Some(ch) => append(&mut text, ch),
            None => {
                proof {
                    if text_ok(s, a0) {
                        let t2 = choose|t2: int| text_at(s, a0, t2);
                        if t2 < t {
                            assert(!is_terminator(old(reader).byte(t2)));
                        } else if t2 > t {
                            assert(known_chr(rom_u8(s, a0, t)));
                        }
                    }
                }
                return Err(RomError::Format);
            },
        }
        proof {
            t = t + 1;
        }
    }
}

/// Decodes a fixed-length name of `n` bytes, stopping early at 0x50.
pub fn decode_text_fixed(s: &Vec<u8>, n: usize) -> (r: Result<String, RomError>)
    requires
        n <= s@.len(),
    ensures
        r is Ok <==> forall|i: int| 0 <= i < fixed_len(s@, n as int) ==> known_chr(#[trigger] s@[i]),
        r is Ok ==> r->Ok_0@ == chars_text(s@.subrange(0, fixed_len(s@, n as int))),
        r is Err ==> r->Err_0 == RomError::Format,
{
    let mut text = String::new();
    let mut i: usize = 0;
    while i < n
        invariant
            i <= n,
            n <= s@.len(),
            forall|k: int| 0 <= k < i ==> s@[k] != 0x50,
            forall|k: int| 0 <= k < i ==> known_chr(#[trigger] s@[k]),
            fixed_len(s@, i as int) == i,
            text@ == chars_text(s@.subrange(0, i as int)),
        decreases n - i,
    {
        proof {
            lemma_fixed_len_stop(s@, i as int, n as int);
        }
        if s[i] == 0x50 {
            return Ok(text);
        }
        proof {
            lemma_fixed_len_ge(s@, i + 1, n as int);
        }
        match get_pkmn_chr(s[i]) {
            Some(t) => append(&mut text, t),
            None => {
                return Err(RomError::Format);
            },
        }
        proof {
            assert(s@.subrange(0, i + 1).drop_last() =~= s@.subrange(0, i as int));
        }
        i = i + 1;
    }
    Ok(text)
}

proof fn lemma_fixed_len_stop(b: Seq<u8>, i: int, n: int)
    requires
        0 <= i < n <= b.len(),
        fixed_len(b, i) == i,
    ensures
        b[i] == 0x50 ==> fixed_len(b, n) == i,
        b[i] != 0x50 ==> fixed_len(b, i + 1) == i + 1,
    decreases n - i,
{
    if b[i] == 0x50 {
        lemma_fixed_len_const(b, i, n);
    }
}

proof fn lemma_fixed_len_ge(b: Seq<u8>, k: int, n: int)
    requires
        0 <= k <= n <= b.len(),
        fixed_len(b, k) == k,
    ensures
        fixed_len(b, n) >= k,
    decreases n - k,
{
    if n > k {
        lemma_fixed_len_ge(b, k, n - 1);
        lemma_fixed_len_le(b, n - 1);
    }
}

proof fn lemma_fixed_len_le(b: Seq<u8>, n: int)
    ensures
        fixed_len(b, n) <= if n < 0 { 0 } else { n },
    decreases n,
{
    if n > 0 {
        lemma_fixed_len_le(b, n - 1);
    }
}

proof fn lemma_fixed_len_const(b: Seq<u8>, i: int, n: int)
    requires
        0 <= i < n <= b.len(),
        fixed_len(b, i) == i,
        b[i] == 0x50,
    ensures
        fixed_len(b, n) == i,
    decreases n,
{
    if n > i + 1 {
        lemma_fixed_len_const(b, i, n - 1);
    }
}

/// Decodes a text command: a script marker, or a pointer (word then bank)
/// to a string that starts with code 0.
/// Text of the command at `a`: a fixed marker for the script commands
/// (0x08, 0xf5, 0xf6, 0xf7, 0xfe, 0xff), or, for 0x17, the string after the
/// opening code 0 found through the pointer (word then bank) that follows.
/// `None` for an unknown command or an unreadable or malformed string.
pub open spec fn command_text(s: Seq<u8>, a: Addr) -> Option<Seq<char>> {
    if !span_readable(s, a, 1) {
        None
    } else {
        let cmd = rom_u8(s, a, 0);
        if cmd == 0x08 {
            Some("<Script>"@)
        } else if cmd == 0xf5 {
            Some("<Script: Vending machine>"@)
        } else if cmd == 0xf6 {
            Some("<Script: Cable club>"@)
        } else if cmd == 0xf7 {
            Some("<Script: Prize vendor>"@)
        } else if cmd == 0xfe {
            Some("<Script: Mart>"@)
        } else if cmd == 0xff {
            Some("<Script: Nurse>"@)
        } else if cmd == 0x17 && span_readable(s, a, 4) {
            let p = Addr { bank: rom_u8(s, a, 3), addr: rom_u16(s, a, 1) };
            if span_readable(s, p, 1) && rom_u8(s, p, 0) == 0 && text_ok(s, advanced(p, 1)) {
                Some(text_of(s, advanced(p, 1)))
            } else {
                None
            }
        } else {
            None
        }
    }
}

/// Decodes a text command: a script marker, or a pointer (word then bank)
/// to a string that starts with code 0.
pub fn get_text_command(reader: &mut Reader) -> (r: Result<String, RomError>)
    ensures
        final(reader).stream == old(reader).stream,
        r is Ok <==> command_text(old(reader).stream@, old(reader).addr) is Some,
        r is Ok ==> r->Ok_0@ == command_text(old(reader).stream@, old(reader).addr)->Some_0,
        !old(reader).can_read(1) ==> r == Err::<String, RomError>(RomError::Address),
{
    let ghost s = reader.stream@;
    let ghost a = reader.addr;
    proof {
        if span_readable(s, a, 4) {
            crate::reader::lemma_span_step(s, a, 4);
            crate::reader::lemma_span_step(s, advanced(a, 1), 3);
            crate::reader::lemma_span_step(s, advanced(advanced(a, 1), 1), 2);
            crate::reader::lemma_span_step(s, advanced(advanced(advanced(a, 1), 1), 1), 1);
        }
        if span_readable(s, a, 1) {
            crate::reader::lemma_advanced_pos(a, 1);
        }
    }
    let cmd = reader.read_u8()?;
    if cmd == 0x08 {
        Ok("<Script>".to_string())
    } else if cmd == 0x17 {
        let ghost a1 = reader.addr;
        proof {
            if reader.can_read(2) {
                crate::reader::lemma_advanced_pos(a1, 2);
            }
        }
        let addr = reader.read_u16()?;
        let ghost a3 = reader.addr;
        let bank = reader.read_u8()?;
        assert(span_readable(s, a, 4));
        assert(addr == rom_u16(s, a, 1) && bank == rom_u8(s, a, 3));
        reader.seek(Addr::new(bank, addr));
        proof {
            if reader.can_read(1) {
                crate::reader::lemma_advanced_pos(reader.addr, 1);
            }
        }
        let op = reader.read_u8()?;
        if op != 0x00 {
            return Err(RomError::Format);
        }
        get_text(reader)
    } else if cmd == 0xf5 {
        Ok("<Script: Vending machine>".to_string())
    } else if cmd == 0xf6 {
        Ok("<Script: Cable club>".to_string())
    } else if cmd == 0xf7 {
        Ok("<Script: Prize vendor>".to_string())
    } else if cmd == 0xfe {
        Ok("<Script: Mart>".to_string())
    } else if cmd == 0xff {
        Ok("<Script: Nurse>".to_string())
    } else {
        Err(RomError::Format)
    }
}

/// Where string `k` (from 0) of a list of terminated strings at `a` starts.
pub open spec fn packed_start(s: Seq<u8>, a: Addr, k: nat) -> Addr
    decreases k,
{
    if k == 0 {
        a
    } else {
        let p = packed_start(s, a, (k - 1) as nat);
        advanced(p, text_len(s, p) + 1)
    }
}

/// The first `n` strings of the list at `a` decode.
pub open spec fn packed_ok(s: Seq<u8>, a: Addr, n: nat) -> bool {
    forall|k: nat| k < n ==> text_ok(s, #[trigger] packed_start(s, a, k))
}

/// Entry `id` (counting from 1) of a list of strings separated by 0x50,
/// found by walking over the entries before it, as the game does.
pub fn load_packed_text_id(stream: &Vec<u8>, addr: Addr, id: u8) -> (r: Result<String, RomError>)
    ensures
        id == 0 ==> r == Err::<String, RomError>(RomError::Format),
        id > 0 ==> (r is Ok <==> packed_ok(stream@, addr, id as nat)),
        r is Ok ==> r->Ok_0@ == text_of(stream@, packed_start(stream@, addr, (id - 1) as nat)),
{
    if id == 0 {
        return Err(RomError::Format);
    }
    let mut reader = Reader::new_at(stream, addr);
    let mut k: u8 = 1;
    while k < id
        invariant
            1 <= k <= id,
            reader.stream == stream,
            reader.addr == packed_start(stream@, addr, (k - 1) as nat),
            packed_ok(stream@, addr, (k - 1) as nat),
        decreases id - k,
    {
        let ghost p = reader.addr;
        match get_text(&mut reader) {
            Ok(_) => {},
            Err(e) => {
                assert(!text_ok(stream@, packed_start(stream@, addr, (k - 1) as nat)));
                return Err(e);
            },
        }
        proof {
            assert(packed_start(stream@, addr, k as nat) == advanced(p, text_len(stream@, p) + 1));
            assert forall|j: nat| j < k as nat implies text_ok(stream@, #[trigger] packed_start(stream@, addr, j)) by {
                if j < (k - 1) as nat {
                    assert(packed_ok(stream@, addr, (k - 1) as nat));
                }
            }
        }
        k = k + 1;
    }
    let ghost p = reader.addr;
    let r = get_text(&mut reader);
    proof {
        if r is Ok {
            assert forall|j: nat| j < id as nat implies text_ok(stream@, #[trigger] packed_start(stream@, addr, j)) by {
                if j < (id - 1) as nat {
                    assert(packed_ok(stream@, addr, (id - 1) as nat));
                }
            }
        } else {
            assert(!text_ok(stream@, packed_start(stream@, addr, (id - 1) as nat)));
        }
    }
    r
}

/// The character of a decimal digit.
pub open spec fn digit_char(d: u8) -> char {
    if d == 0 {
        '0'
    } else if d == 1 {
        '1'
    } else if d == 2 {
        '2'
    } else if d == 3 {
        '3'
    } else if d == 4 {
        '4'
    } else if d == 5 {
        '5'
    } else if d == 6 {
        '6'
    } else if d == 7 {
        '7'
    } else if d == 8 {
        '8'
    } else {
        '9'
    }
}

/// Name of machine item `id` (above 200): TM01 to TM50, then HM01 to HM05.
pub open spec fn machine_name(id: u8) -> Seq<char> {
    let (p, n) = if id > 250 {
        ('H', id - 250)
    } else {
        ('T', id - 200)
    };
    seq![p, 'M', digit_char((n / 10) as u8), digit_char((n % 10) as u8)]
}

/// Text of a decimal digit.
pub fn digit(d: u8) -> (r: &'static str)
    requires
        d < 10,
    ensures
        r@.len() == 1,
        r@ == seq![digit_char(d)],
{
    proof {
        reveal_strlit("0");
        reveal_strlit("1");
        reveal_strlit("2");
        reveal_strlit("3");
        reveal_strlit("4");
        reveal_strlit("5");
        reveal_strlit("6");
        reveal_strlit("7");
        reveal_strlit("8");
        reveal_strlit("9");
    }
    match d {
        0 => "0",
        1 => "1",
        2 => "2",
        3 => "3",
        4 => "4",
        5 => "5",
        6 => "6",
        7 => "7",
        8 => "8",
        _ => "9",
    }
}

/// Decimal text of `n`, without leading zeros.
pub fn decimal(n: u8) -> (r: String)
    ensures
        n < 10 ==> r@.len() == 1,
        10 <= n < 100 ==> r@.len() == 2,
        100 <= n ==> r@.len() == 3,
{
    let mut s = String::new();
    if n >= 100 {
        append(&mut s, digit(n / 100));
    }
    if n >= 10 {
        append(&mut s, digit(n / 10 % 10));
    }
    append(&mut s, digit(n % 10));
    s
}

/// Lower-case hexadecimal text of a digit.
pub fn hex_digit(d: u8) -> (r: &'static str)
    requires
        d < 16,
    ensures
        r@.len() == 1,
{
    proof {
        reveal_strlit("a");
        reveal_strlit("b");
        reveal_strlit("c");
        reveal_strlit("d");
        reveal_strlit("e");
        reveal_strlit("f");
    }
    if d < 10 {
        digit(d)
    } else if d == 10 {
        "a"
    } else if d == 11 {
        "b"
    } else if d == 12 {
        "c"
    } else if d == 13 {
        "d"
    } else if d == 14 {
        "e"
    } else {
        "f"
    }
}

/// Two lower-case hexadecimal digits of `n`.
pub fn hex2(n: u8) -> (r: String)
    ensures
        r@.len() == 2,
{
    let mut s = String::new();
    append(&mut s, hex_digit(n / 16));
    append(&mut s, hex_digit(n % 16));
    s
}

/// Decimal text of `n` with at least `width` digits (zero padded), `width`
/// being 1 to 3.
pub fn decimal_padded(n: u8, width: u8) -> (r: String)
    requires
        1 <= width <= 3,
    ensures
        r@.len() >= width,
{
    let mut s = String::new();
    if n >= 100 || width >= 3 {
        append(&mut s, digit(n / 100));
    }
    if n >= 10 || width >= 2 {
        append(&mut s, digit(n / 10 % 10));
    }
    append(&mut s, digit(n % 10));
    s
}

/// Decimal text of a 16-bit value, without leading zeros.
pub fn decimal_u16(n: u16) -> (r: String)
    ensures
        r@.len() >= 1,
{
    let mut s = String::new();
    let mut started = false;
    let mut p: u16 = 10000;
    while p > 1
        invariant
            p == 10000 || p == 1000 || p == 100 || p == 10 || p == 1,
        decreases p,
    {
        let d = (n / p % 10) as u8;
        if started || d != 0 {
            append(&mut s, digit(d));
            started = true;
        }
        p = p / 10;
    }
    append(&mut s, digit((n % 10) as u8));
    s
}

/// Name of an item: HM01.. for ids above 250, TM01.. for ids above 200,
/// else entry `id` of the item name list.
pub fn get_item_name(stream: &Vec<u8>, id: u8) -> (r: Result<String, RomError>)
    ensures
        id > 200 ==> r is Ok && r->Ok_0@ == machine_name(id),
        id == 0 ==> r is Err,
{
    if id > 200 {
        let (prefix, n): (&str, u8) = if id > 250 {
            ("HM", id - 250)
        } else {
            ("TM", id - 200)
        };
        proof {
            reveal_strlit("HM");
            reveal_strlit("TM");
        }
        let mut s = String::new();
        append(&mut s, prefix);
        append(&mut s, digit(n / 10));
        append(&mut s, digit(n % 10));
        assert(s@ =~= machine_name(id));
        Ok(s)
    } else {
        let addr = get_name_pointer(stream, NamePointer::Items)?;
        load_packed_text_id(stream, addr, id)
    }
}

} // verus!
