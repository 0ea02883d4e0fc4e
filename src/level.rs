//! Level description: map dimensions as powers of two and per-terrain
//! rendering parameters.

use vstd::prelude::*;

use vstd::arithmetic::power2::pow2;

use ini::Ini;

verus! {

#[verifier::external_type_specification]
#[verifier::external_body]
pub struct ExIni(Ini);

/// What an `Ini` answers for each (section, key) pair: the value that
/// `Ini::get_from` returns for it, where it returns one.
pub uninterp spec fn ini_entries(ini: Ini) -> Map<(Seq<char>, Seq<char>), Seq<char>>;

/// What `Ini::load_from_str` makes of a text: the entries of the `Ini` it
/// returns, or nothing where it fails.
pub uninterp spec fn ini_of_text(text: Seq<char>) -> Option<Map<(Seq<char>, Seq<char>), Seq<char>>>;

/// The words that `str::split_whitespace` cuts a text into.
pub uninterp spec fn whitespace_words(text: Seq<char>) -> Seq<Seq<char>>;

/// Relies on `ini::Ini::load_from_str`: parses an INI text.
#[verifier::external_body]
fn parse_ini(text: &str) -> (r: Option<Ini>)
    ensures
        match ini_of_text(text@) {
            Some(m) => r is Some && ini_entries(r->Some_0) == m,
            None => r is None,
        },
{
    Ini::load_from_str(text).ok()
}

/// Relies on `ini::Ini::get_from`: the value of `key` in `section`.
#[verifier::external_body]
fn ini_get(ini: &Ini, section: &str, key: &str) -> (r: Option<String>)
    ensures
        match r {
            Some(v) => ini_entries(*ini).contains_key((section@, key@)) && v@ == ini_entries(
                *ini,
            )[(section@, key@)],
            None => !ini_entries(*ini).contains_key((section@, key@)),
        },
{
    ini.get_from(Some(section), key).map(String::from)
}

/// Relies on `str::split_whitespace`: the words of `text`, in order.
#[verifier::external_body]
fn split_words(text: &str) -> (r: Vec<String>)
    ensures
        r@.map_values(|w: String| w@) == whitespace_words(text@),
{
    text.split_whitespace().map(String::from).collect()
}

/// A non-empty run of ASCII decimal digits.
pub open spec fn all_digits(s: Seq<char>) -> bool {
    s.len() > 0 && forall|i: int| 0 <= i < s.len() ==> '0' <= #[trigger] s[i] <= '9'
}

/// The number that a run of decimal digits spells.
pub open spec fn digits_value(s: Seq<char>) -> int
    decreases s.len(),
{
    if s.len() == 0 {
        0
    } else {
        10 * digits_value(s.drop_last()) + (s.last() as int - '0' as int)
    }
}

/// Decimal text with an optional `+`: the grammar of unsigned `from_str`.
pub open spec fn unsigned_decimal(s: Seq<char>) -> Option<int> {
    if all_digits(s) {
        Some(digits_value(s))
    } else if s.len() > 0 && s[0] == '+' && all_digits(s.drop_first()) {
        Some(digits_value(s.drop_first()))
    } else {
        None
    }
}

/// Decimal text with an optional `+` or `-`: the grammar of signed `from_str`.
pub open spec fn signed_decimal(s: Seq<char>) -> Option<int> {
    if s.len() > 0 && s[0] == '-' && all_digits(s.drop_first()) {
        Some(-digits_value(s.drop_first()))
    } else {
        unsigned_decimal(s)
    }
}

/// Relies on `<u8 as FromStr>::from_str`: decimal text in range.
#[verifier::external_body]
fn parse_u8(s: &str) -> (r: Option<u8>)
    ensures
        match unsigned_decimal(s@) {
            Some(v) => if v <= u8::MAX {
                r == Some(v as u8)
            } else {
                r is None
            },
            None => r is None,
        },
{
    s.parse::<u8>().ok()
}

/// Relies on `<usize as FromStr>::from_str`: decimal text in range.
#[verifier::external_body]
fn parse_usize(s: &str) -> (r: Option<usize>)
    ensures
        match unsigned_decimal(s@) {
            Some(v) => if v <= usize::MAX {
                r == Some(v as usize)
            } else {
                r is None
            },
            None => r is None,
        },
{
    s.parse::<usize>().ok()
}

/// Relies on `<i32 as FromStr>::from_str`: signed decimal text in range.
#[verifier::external_body]
fn parse_i32(s: &str) -> (r: Option<i32>)
    ensures
        match signed_decimal(s@) {
            Some(v) => if i32::MIN <= v <= i32::MAX {
                r == Some(v as i32)
            } else {
                r is None
            },
            None => r is None,
        },
{
    s.parse::<i32>().ok()
}

/// A size stored as its base-two logarithm.
pub struct Power(pub i32);

impl Power {
    /// The size itself, `2^p`.
    pub fn as_value(&self) -> (r: i32)
        requires
            0 <= self.0 < 31,
        ensures
            r == pow2(self.0 as nat),
    {
        proof {
            vstd::arithmetic::power2::lemma_pow2_strictly_increases(self.0 as nat, 31);
            vstd::arithmetic::power2::lemma2_to64();
            vstd::bits::lemma_u32_shl_is_mul(1, self.0 as u32);
        }
        (1u32 << (self.0 as u32)) as i32
    }

    /// The exponent `p`.
    pub fn as_power(&self) -> (r: i32)
        ensures
            r == self.0,
    {
        self.0
    }
}

/// Rendering parameters of one terrain type.
pub struct TerrainConfig {
    pub shadow_offset: u8,
    pub height_shift: u8,
    /// Palette range of the terrain; its end is inclusive.
    pub colors: std::ops::Range<u8>,
}

impl Clone for TerrainConfig {
    fn clone(&self) -> (r: Self)
        ensures
            r == *self,
    {
        TerrainConfig {
            shadow_offset: self.shadow_offset,
            height_shift: self.height_shift,
            colors: std::ops::Range { start: self.colors.start, end: self.colors.end },
        }
    }
}

/// Files that a level's description points to, beside the description.
pub struct LevelConfigPath {
    pub palette: String,
    pub data: String,
}

/// A level's description.
pub struct LevelConfig {
    pub path: Option<LevelConfigPath>,
    pub is_compressed: bool,
    pub size: (Power, Power),
    pub geo: Power,
    pub section: Power,
    pub min_square: Power,
    pub terrains: Vec<TerrainConfig>,
}

/// What a caller can observe of a `LevelConfig`.
pub struct LevelConfigView {
    /// Palette and data file names, where set.
    pub path: Option<(Seq<char>, Seq<char>)>,
    pub is_compressed: bool,
    pub size: (i32, i32),
    pub geo: i32,
    pub section: i32,
    pub min_square: i32,
    pub terrains: Seq<TerrainConfig>,
}

impl View for LevelConfig {
    type V = LevelConfigView;

    open spec fn view(&self) -> LevelConfigView {
        LevelConfigView {
            path: match self.path {
                Some(p) => Some((p.palette@, p.data@)),
                None => None,
            },
            is_compressed: self.is_compressed,
            size: (self.size.0.0, self.size.1.0),
            geo: self.geo.0,
            section: self.section.0,
            min_square: self.min_square.0,
            terrains: self.terrains@,
        }
    }
}

pub open spec fn global_section() -> Seq<char> {
    "Global Parameters"@
}

pub open spec fn storage_section() -> Seq<char> {
    "Storage"@
}

pub open spec fn render_section() -> Seq<char> {
    "Rendering Parameters"@
}

/// The value of `key` in `section`, if the description has one.
pub open spec fn entry(
    m: Map<(Seq<char>, Seq<char>), Seq<char>>,
    section: Seq<char>,
    key: Seq<char>,
) -> Option<Seq<char>> {
    if m.contains_key((section, key)) {
        Some(m[(section, key)])
    } else {
        None
    }
}

/// Decimal text of a byte.
pub open spec fn byte_of(s: Seq<char>) -> Option<u8> {
    match unsigned_decimal(s) {
        Some(v) => if v <= u8::MAX {
            Some(v as u8)
        } else {
            None
        },
        None => None,
    }
}

/// The bytes spelled by the first `n` words (or all of them, if fewer), if
/// each of those is a byte.
pub open spec fn words_bytes(ws: Seq<Seq<char>>, n: int) -> Option<Seq<u8>> {
    let k = if n < ws.len() {
        n
    } else {
        ws.len() as int
    };
    if forall|i: int| 0 <= i < k ==> (#[trigger] byte_of(ws[i])) is Some {
        Some(Seq::new(k as nat, |i: int| byte_of(ws[i])->Some_0))
    } else {
        None
    }
}

/// The per-terrain bytes listed under `key` of the rendering section.
pub open spec fn key_bytes(m: Map<(Seq<char>, Seq<char>), Seq<char>>, key: Seq<char>, n: int) -> Option<
    Seq<u8>,
> {
    match entry(m, render_section(), key) {
        Some(v) => words_bytes(whitespace_words(v), n),
        None => None,
    }
}

/// How many terrains the description has: eight unless it says otherwise.
pub open spec fn terrain_count(m: Map<(Seq<char>, Seq<char>), Seq<char>>) -> Option<usize> {
    match entry(m, render_section(), "Terrain Max"@) {
        None => Some(8),
        Some(v) => match unsigned_decimal(v) {
            Some(n) => if n <= usize::MAX {
                Some(n as usize)
            } else {
                None
            },
            None => None,
        },
    }
}

/// An exponent of the global section.
pub open spec fn global_power(m: Map<(Seq<char>, Seq<char>), Seq<char>>, key: Seq<char>) -> Option<
    i32,
> {
    match entry(m, global_section(), key) {
        Some(v) => match signed_decimal(v) {
            Some(x) => if i32::MIN <= x <= i32::MAX {
                Some(x as i32)
            } else {
                None
            },
            None => None,
        },
        None => None,
    }
}

/// Entry `t` of `bs`, or zero past its end.
pub open spec fn byte_or_zero(bs: Seq<u8>, t: int) -> u8 {
    if t < bs.len() {
        bs[t]
    } else {
        0
    }
}

/// The level that a description with entries `m` gives, if all that it
/// needs is there and well formed.
pub open spec fn config_of(m: Map<(Seq<char>, Seq<char>), Seq<char>>) -> Option<LevelConfigView> {
    match terrain_count(m) {
        None => None,
        Some(n) => {
            let shadow = key_bytes(m, "Shadow Offsets"@, n as int);
            let shift = key_bytes(m, "Height Shifts"@, n as int);
            let begin = key_bytes(m, "Begin Colors"@, n as int);
            let end = key_bytes(m, "End Colors"@, n as int);
            let compressed = entry(m, storage_section(), "Compressed Format Using"@);
            let px = global_power(m, "Map Power X"@);
            let py = global_power(m, "Map Power Y"@);
            let geo = global_power(m, "GeoNet Power"@);
            let section = global_power(m, "Section Size Power"@);
            let min_square = global_power(m, "Minimal Square Power"@);
            if shadow is Some && shift is Some && begin is Some && end is Some && compressed is Some
                && px is Some && py is Some && geo is Some && section is Some && min_square is Some {
                Some(
                    LevelConfigView {
                        path: None,
                        is_compressed: compressed->Some_0 != "0"@,
                        size: (px->Some_0, py->Some_0),
                        geo: geo->Some_0,
                        section: section->Some_0,
                        min_square: min_square->Some_0,
                        terrains: Seq::new(
                            n as nat,
                            |t: int|
                                TerrainConfig {
                                    shadow_offset: byte_or_zero(shadow->Some_0, t),
                                    height_shift: byte_or_zero(shift->Some_0, t),
                                    colors: std::ops::Range {
                                        start: byte_or_zero(begin->Some_0, t),
                                        end: byte_or_zero(end->Some_0, t),
                                    },
                                },
                        ),
                    },
                )
            } else {
                None
            }
        },
    }
}

/// Parses the words listed under `key` of the rendering section, one byte
/// per terrain.
fn read_key_bytes(ini: &Ini, key: &str, n: usize) -> (r: Option<Vec<u8>>)
    ensures
        match key_bytes(ini_entries(*ini), key@, n as int) {
            Some(bs) => r is Some && r->Some_0@ == bs,
            None => r is None,
        },
{
    let value = match ini_get(ini, "Rendering Parameters", key) {
        Some(v) => v,
        None => return None,
    };
    let words = split_words(value.as_str());
    let ghost ws = whitespace_words(value@);
    assert(forall|i: int| 0 <= i < words@.len() ==> #[trigger] words@[i]@ == ws[i]) by {
        assert forall|i: int| 0 <= i < words@.len() implies #[trigger] words@[i]@ == ws[i] by {
            assert(words@.map_values(|w: String| w@)[i] == words@[i]@);
        }
    }
    let k = if n < words.len() {
        n
    } else {
        words.len()
    };
    let mut out: Vec<u8> = Vec::new();
    let mut i: usize = 0;
    assert(key_bytes(ini_entries(*ini), key@, n as int) == words_bytes(ws, n as int));
    while i < k
        invariant
            key_bytes(ini_entries(*ini), key@, n as int) == words_bytes(ws, n as int),
            k <= words@.len(),
            k == if n < ws.len() {
                n as int
            } else {
                ws.len() as int
            },
            ws.len() == words@.len(),
            forall|j: int| 0 <= j < words@.len() ==> #[trigger] words@[j]@ == ws[j],
            0 <= i <= k,
            out@.len() == i,
            forall|j: int| 0 <= j < i ==> byte_of(ws[j]) == Some(#[trigger] out@[j]),
        decreases k - i,
    {
        match parse_u8(words[i].as_str()) {
            Some(b) => out.push(b),
            None => {
                assert(byte_of(ws[i as int]) is None);
                return None;
            },
        }
        i = i + 1;
    }
    assert forall|j: int| 0 <= j < k implies (#[trigger] byte_of(ws[j])) is Some by {
        assert(byte_of(ws[j]) == Some(out@[j]));
    }
    assert(out@ =~= Seq::new(k as nat, |j: int| byte_of(ws[j])->Some_0));
    Some(out)
}

/// Parses an exponent of the global section.
fn read_global_power(ini: &Ini, key: &str) -> (r: Option<i32>)
    ensures
        r == global_power(ini_entries(*ini), key@),
{
    match ini_get(ini, "Global Parameters", key) {
        Some(v) => parse_i32(v.as_str()),
        None => None,
    }
}

impl LevelConfig {
    /// Builds a level from a parsed description. Fails when a section or
    /// key that it needs is missing, or a number in it does not parse.
    pub fn load_ini(ini: &Ini) -> (r: Result<LevelConfig, ()>)
        ensures
            match config_of(ini_entries(*ini)) {
                Some(c) => r is Ok && r->Ok_0@ == c,
                None => r is Err,
            },
    {
        let ghost m = ini_entries(*ini);
        let count: usize = match ini_get(ini, "Rendering Parameters", "Terrain Max") {
            None => 8,
            Some(v) => match parse_usize(v.as_str()) {
                Some(n) => n,
                None => return Err(()),
            },
        };
        assert(terrain_count(m) == Some(count));
        let shadow = match read_key_bytes(ini, "Shadow Offsets", count) {
            Some(b) => b,
            None => return Err(()),
        };
        let shift = match read_key_bytes(ini, "Height Shifts", count) {
            Some(b) => b,
            None => return Err(()),
        };
        let begin = match read_key_bytes(ini, "Begin Colors", count) {
            Some(b) => b,
            None => return Err(()),
        };
        let end = match read_key_bytes(ini, "End Colors", count) {
            Some(b) => b,
            None => return Err(()),
        };
        let is_compressed = match ini_get(ini, "Storage", "Compressed Format Using") {
            Some(v) => !(v == "0".to_owned()),
            None => return Err(()),
        };
        let px = match read_global_power(ini, "Map Power X") {
            Some(x) => x,
            None => return Err(()),
        };
        let py = match read_global_power(ini, "Map Power Y") {
            Some(x) => x,
            None => return Err(()),
        };
        let geo = match read_global_power(ini, "GeoNet Power") {
            Some(x) => x,
            None => return Err(()),
        };
        let section = match read_global_power(ini, "Section Size Power") {
            Some(x) => x,
            None => return Err(()),
        };
        let min_square = match read_global_power(ini, "Minimal Square Power") {
            Some(x) => x,
            None => return Err(()),
        };
        let mut terrains: Vec<TerrainConfig> = Vec::new();
        let mut t: usize = 0;
        while t < count
            invariant
                0 <= t <= count,
                terrains@.len() == t,
                forall|j: int|
                    0 <= j < t ==> #[trigger] terrains@[j] == (TerrainConfig {
                        shadow_offset: byte_or_zero(shadow@, j),
                        height_shift: byte_or_zero(shift@, j),
                        colors: std::ops::Range {
                            start: byte_or_zero(begin@, j),
                            end: byte_or_zero(end@, j),
                        },
                    }),
            decreases count - t,
        {
            let terrain = TerrainConfig {
                shadow_offset: if t < shadow.len() {
                    shadow[t]
                } else {
                    0
                },
                height_shift: if t < shift.len() {
                    shift[t]
                } else {
                    0
                },
                colors: std::ops::Range {
                    start: if t < begin.len() {
                        begin[t]
                    } else {
                        0
                    },
                    end: if t < end.len() {
                        end[t]
                    } else {
                        0
                    },
                },
            };
            terrains.push(terrain);
            t = t + 1;
        }
        let config = LevelConfig {
            path: None,
            is_compressed,
            size: (Power(px), Power(py)),
            geo: Power(geo),
            section: Power(section),
            min_square: Power(min_square),
            terrains,
        };
        assert(config@.terrains =~= config_of(m)->Some_0.terrains);
        Ok(config)
    }

    /// Builds a level from the text of its description.
    pub fn load_str(text: &str) -> (r: Result<LevelConfig, ()>)
        ensures
            match ini_of_text(text@) {
                Some(m) => match config_of(m) {
                    Some(c) => r is Ok && r->Ok_0@ == c,
                    None => r is Err,
                },
                None => r is Err,
            },
    {
        match parse_ini(text) {
            Some(ini) => LevelConfig::load_ini(&ini),
            None => Err(()),
        }
    }
}

} // verus!
