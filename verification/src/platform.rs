//! Screen geometry helpers shared by the overlay and the capture code.
use vstd::prelude::*;
use crate::model::{MonitorInfo, WindowInfo};

verus! {

/// A point lies in a rectangle `[left, top, right, bottom]` when it is inside
/// the half-open box: the left and top edges belong to it, the right and
/// bottom edges do not.
pub open spec fn spec_point_in_rect(point: [i32; 2], rect: [i32; 4]) -> bool {
    &&& rect[0] <= point[0] < rect[2]
    &&& rect[1] <= point[1] < rect[3]
}

/// Hit test of a screen point against a half-open rectangle.
pub fn point_in_rect(point: [i32; 2], rect: [i32; 4]) -> (inside: bool)
    ensures
        inside == spec_point_in_rect(point, rect),
{
    point[0] >= rect[0] && point[0] < rect[2] && point[1] >= rect[1] && point[1] < rect[3]
}

/// UTF-16 code units of a character sequence: characters below U+10000 take
/// one unit, the others a high and a low surrogate.
pub open spec fn spec_encode_utf16(s: Seq<char>) -> Seq<u16>
    decreases s.len(),
{
    if s.len() == 0 {
        Seq::empty()
    } else {
        let c = s[0] as u32;
        let units = if c < 0x10000 {
            seq![c as u16]
        } else {
            let v = c - 0x10000;
            seq![(0xD800 + v / 0x400) as u16, (0xDC00 + v % 0x400) as u16]
        };
        units + spec_encode_utf16(s.drop_first())
    }
}

/// Characters of UTF-16 code units, where each unpaired surrogate becomes
/// U+FFFD REPLACEMENT CHARACTER.
pub open spec fn spec_decode_utf16_lossy(u: Seq<u16>) -> Seq<char>
    decreases u.len(),
{
    if u.len() == 0 {
        Seq::empty()
    } else if u[0] < 0xD800 || u[0] >= 0xE000 {
        seq![u[0] as char] + spec_decode_utf16_lossy(u.drop_first())
    } else if u[0] < 0xDC00 && u.len() >= 2 && 0xDC00 <= u[1] < 0xE000 {
        seq![(0x10000 + (u[0] - 0xD800) * 0x400 + (u[1] - 0xDC00)) as char]
            + spec_decode_utf16_lossy(u.subrange(2, u.len() as int))
    } else {
        seq!['\u{FFFD}'] + spec_decode_utf16_lossy(u.drop_first())
    }
}

/// `str::encode_utf16`, collected: the UTF-16 encoding of the text.
#[verifier::external_body]
fn encode_utf16(value: &str) -> (units: Vec<u16>)
    ensures
        units@ == spec_encode_utf16(value@),
{
    value.encode_utf16().collect()
}

/// `String::from_utf16_lossy`: decodes UTF-16, replacing each unpaired
/// surrogate with U+FFFD.
#[verifier::external_body]
fn from_utf16_lossy(units: &[u16]) -> (text: String)
    ensures
        text@ == spec_decode_utf16_lossy(units@),
{
    String::from_utf16_lossy(units)
}

/// A NUL-terminated UTF-16 string for the Windows API.
pub fn wide(value: &str) -> (units: Vec<u16>)
    ensures
        units@ == spec_encode_utf16(value@).push(0),
{
    let mut units = encode_utf16(value);
    units.push(0);
    units
}

/// Number of units before the first NUL, or all of them when there is none.
pub open spec fn terminated_len(buffer: Seq<u16>) -> int {
    if exists|i: int| 0 <= i < buffer.len() && buffer[i] == 0 {
        choose|i: int| 0 <= i < buffer.len() && buffer[i] == 0 && forall|j: int| 0 <= j < i ==> buffer[j] != 0
    } else {
        buffer.len() as int
    }
}

/// The text of a NUL-terminated UTF-16 buffer filled in by the Windows API:
/// the units before the first NUL, decoded with replacement of unpaired surrogates.
pub fn wide_string(buffer: &[u16]) -> (text: String)
    ensures
        text@ == spec_decode_utf16_lossy(buffer@.take(terminated_len(buffer@))),
{
    let mut length: usize = 0;
    let mut prefix: Vec<u16> = Vec::new();
    while length < buffer.len() && buffer[length] != 0
        invariant
            length <= buffer@.len(),
            forall|j: int| 0 <= j < length ==> buffer@[j] != 0,
            prefix@ == buffer@.take(length as int),
        decreases buffer@.len() - length,
    {
        prefix.push(buffer[length]);
        length = length + 1;
        assert(prefix@ =~= buffer@.take(length as int));
    }
    proof {
        if length < buffer@.len() {
            assert(buffer@[length as int] == 0);
            let first = choose|i: int| 0 <= i < buffer@.len() && buffer@[i] == 0 && forall|j: int| 0 <= j < i ==> buffer@[j] != 0;
            assert(first == length) by {
                if first < length {
                    assert(buffer@[first] != 0);
                }
                if first > length {
                    assert(buffer@[length as int] != 0);
                }
            }
        } else {
            assert(buffer@.take(length as int) =~= buffer@.take(buffer@.len() as int));
        }
    }
    from_utf16_lossy(prefix.as_slice())
}

proof fn lemma_encode_char(c: char, rest: Seq<u16>)
    requires
        c != '\0',
    ensures
        ({
            let units = spec_encode_utf16(seq![c]);
            &&& forall|k: int| 0 <= k < units.len() ==> units[k] != 0
            &&& spec_decode_utf16_lossy(units + rest) == seq![c] + spec_decode_utf16_lossy(rest)
        }),
{
    let one = seq![c];
    assert(one.drop_first() =~= Seq::<char>::empty());
    assert(spec_encode_utf16(Seq::<char>::empty()) =~= Seq::<u16>::empty());
    assert(spec_encode_utf16(one.drop_first()) =~= Seq::<u16>::empty());
    let units = spec_encode_utf16(one);
    let u = c as u32;
    vstd::utf8::char_is_scalar(c);
    vstd::utf8::char_u32_cast(c, u);
    if u < 0x10000 {
        assert(units =~= seq![u as u16]);
        let all = units + rest;
        assert(all.drop_first() =~= rest);
        assert((u as u16) as char == c);
    } else {
        let v = u - 0x10000;
        let hi = (0xD800 + v / 0x400) as u16;
        let lo = (0xDC00 + v % 0x400) as u16;
        assert(units =~= seq![hi, lo]);
        let all = units + rest;
        assert(all.subrange(2, all.len() as int) =~= rest);
        assert(0x10000 + (hi - 0xD800) * 0x400 + (lo - 0xDC00) == u);
    }
}

proof fn lemma_decode_encode(s: Seq<char>)
    requires
        !s.contains('\0'),
    ensures
        forall|k: int| 0 <= k < spec_encode_utf16(s).len() ==> spec_encode_utf16(s)[k] != 0,
        spec_decode_utf16_lossy(spec_encode_utf16(s)) == s,
    decreases s.len(),
{
    if s.len() > 0 {
        let rest = s.drop_first();
        assert(!rest.contains('\0')) by {
            if rest.contains('\0') {
                let k = choose|k: int| 0 <= k < rest.len() && rest[k] == '\0';
                assert(s[k + 1] == '\0');
            }
        }
        assert(s[0] != '\0') by {
            if s[0] == '\0' {
                assert(s.contains('\0'));
            }
        }
        lemma_decode_encode(rest);
        let tail = spec_encode_utf16(rest);
        lemma_encode_char(s[0], tail);
        let one = seq![s[0]];
        assert(one.drop_first() =~= Seq::<char>::empty());
        assert(spec_encode_utf16(one) =~= spec_encode_utf16(one) + spec_encode_utf16(Seq::<char>::empty()));
        assert(spec_encode_utf16(s) =~= spec_encode_utf16(one) + tail);
        assert(seq![s[0]] + rest =~= s);
    }
}

/// Text without NUL characters survives the round trip through a
/// NUL-terminated UTF-16 buffer.
pub proof fn lemma_wide_round_trip(s: Seq<char>)
    requires
        !s.contains('\0'),
    ensures
        ({
            let buffer = spec_encode_utf16(s).push(0);
            spec_decode_utf16_lossy(buffer.take(terminated_len(buffer))) == s
        }),
{
    lemma_decode_encode(s);
    let units = spec_encode_utf16(s);
    let buffer = units.push(0);
    let n = units.len() as int;
    assert(buffer[n] == 0);
    let first = choose|i: int| 0 <= i < buffer.len() && buffer[i] == 0 && forall|j: int| 0 <= j < i ==> buffer[j] != 0;
    assert(first == n) by {
        if first < n {
            assert(buffer[first] == units[first]);
        }
        if first > n {
            assert(buffer[n] != 0);
        }
    }
    assert(buffer.take(n) =~= units);
}

/// Displays are listed primary first, then by their left edge, then by their
/// top edge: `a` may precede `b` when its key is not larger.
pub open spec fn monitor_key_le(a: MonitorInfo, b: MonitorInfo) -> bool {
    if a.primary != b.primary {
        a.primary
    } else if a.rect[0] != b.rect[0] {
        a.rect[0] < b.rect[0]
    } else {
        a.rect[1] <= b.rect[1]
    }
}

/// `sorted` lists the elements of `original` in `perm` order, sorted by `le`,
/// with elements of equal keys (`le` both ways) in their original order.
pub open spec fn is_stable_order<T>(
    original: Seq<T>,
    sorted: Seq<T>,
    perm: Seq<int>,
    le: spec_fn(T, T) -> bool,
) -> bool {
    &&& perm.len() == original.len()
    &&& sorted.len() == original.len()
    &&& forall|k: int| 0 <= k < perm.len() ==> 0 <= #[trigger] perm[k] < original.len()
    &&& forall|k: int| 0 <= k < perm.len() ==> #[trigger] sorted[k] == original[perm[k]]
    &&& forall|k: int, l: int| 0 <= k < l < perm.len() ==> perm[k] != perm[l]
    &&& forall|k: int, l: int| 0 <= k < l < sorted.len() ==> le(sorted[k], sorted[l])
    &&& forall|k: int, l: int|
        0 <= k < l < sorted.len() && le(sorted[l], sorted[k]) ==> perm[k] < perm[l]
}

pub open spec fn monitor_order() -> spec_fn(MonitorInfo, MonitorInfo) -> bool {
    |a: MonitorInfo, b: MonitorInfo| monitor_key_le(a, b)
}

fn monitor_precedes(a: &MonitorInfo, b: &MonitorInfo) -> (r: bool)
    ensures
        r == monitor_key_le(*a, *b),
{
    if a.primary != b.primary {
        a.primary
    } else if a.rect[0] != b.rect[0] {
        a.rect[0] < b.rect[0]
    } else {
        a.rect[1] <= b.rect[1]
    }
}

/// Orders displays primary first, then left to right, then top to bottom,
/// keeping the enumeration order of displays with equal keys.
pub fn order_monitors(monitors: Vec<MonitorInfo>) -> (sorted: Vec<MonitorInfo>)
    ensures
        exists|perm: Seq<int>| is_stable_order(monitors@, sorted@, perm, monitor_order()),
{
    let ghost original = monitors@;
    let ghost n = original.len();
    let mut input = monitors;
    let mut sorted: Vec<MonitorInfo> = Vec::new();
    let ghost mut perm: Seq<int> = Seq::empty();
    assert(original.skip(0) =~= original);
    while input.len() > 0
        invariant
            n == original.len(),
            input@.len() <= n,
            input@ == original.skip(n - input@.len()),
            perm.len() == n - input@.len(),
            sorted@.len() == perm.len(),
            forall|k: int| 0 <= k < perm.len() ==> 0 <= #[trigger] perm[k] < n - input@.len(),
            forall|k: int| 0 <= k < perm.len() ==> #[trigger] sorted@[k] == original[perm[k]],
            forall|k: int, l: int| 0 <= k < l < perm.len() ==> perm[k] != perm[l],
            forall|k: int, l: int| 0 <= k < l < sorted@.len() ==> monitor_key_le(sorted@[k], sorted@[l]),
            forall|k: int, l: int|
                0 <= k < l < sorted@.len() && monitor_key_le(sorted@[l], sorted@[k]) ==> perm[k] < perm[l],
        decreases input@.len(),
    {
        let ghost i: int = n - input@.len();
        let ghost before = sorted@;
        let ghost waiting = input@;
        assert(waiting[0] == original[i]);
        let monitor = input.remove(0);
        assert(input@ =~= original.skip(n - input@.len()));
        let mut j: usize = 0;
        while j < sorted.len() && monitor_precedes(&sorted[j], &monitor)
            invariant
                sorted@ == before,
                j <= sorted@.len(),
                forall|k: int| 0 <= k < j ==> monitor_key_le(#[trigger] sorted@[k], monitor),
            decreases sorted@.len() - j,
        {
            j = j + 1;
        }
        proof {
            if j < before.len() {
                assert(!monitor_key_le(before[j as int], monitor));
            }
        }
        sorted.insert(j, monitor);
        proof {
            perm = perm.insert(j as int, i);
            assert forall|k: int, l: int| 0 <= k < l < sorted@.len() implies monitor_key_le(sorted@[k], sorted@[l]) by {
                if k < j && l == j {
                } else if k == j && l > j {
                    assert(monitor_key_le(before[j as int], before[l - 1]));
                } else if k < j && l > j {
                    assert(monitor_key_le(before[k], before[l - 1]));
                } else if l < j {
                    assert(monitor_key_le(before[k], before[l]));
                } else {
                    assert(monitor_key_le(before[k - 1], before[l - 1]));
                }
            }
            assert forall|k: int, l: int|
                0 <= k < l < sorted@.len() && monitor_key_le(sorted@[l], sorted@[k]) implies perm[k] < perm[l] by {
                if k == j && l > j {
                    assert(monitor_key_le(before[j as int], before[l - 1]));
                } else if k < j && l > j {
                    assert(monitor_key_le(before[l - 1], before[k]));
                } else if l < j {
                    assert(monitor_key_le(before[l], before[k]));
                } else if k > j {
                    assert(monitor_key_le(before[l - 1], before[k - 1]));
                }
            }
        }
    }
    proof {
        assert(is_stable_order(original, sorted@, perm, monitor_order()));
    }
    sorted
}

/// Lexicographic order of texts by character value, which is the order of
/// Rust strings (their UTF-8 bytes order the same way).
pub open spec fn text_le(a: Seq<char>, b: Seq<char>) -> bool
    decreases a.len(),
{
    if a.len() == 0 {
        true
    } else if b.len() == 0 {
        false
    } else if a[0] != b[0] {
        (a[0] as u32) < (b[0] as u32)
    } else {
        text_le(a.drop_first(), b.drop_first())
    }
}

/// The lowercase mapping of `str::to_lowercase`, defined by the Unicode
/// character tables.
pub uninterp spec fn spec_to_lowercase(text: Seq<char>) -> Seq<char>;

/// `str::to_lowercase`: the text with every character replaced by its
/// Unicode lowercase mapping; the result is named, not described.
#[verifier::external_body]
fn to_lowercase(text: &str) -> (lower: String)
    ensures
        lower@ == spec_to_lowercase(text@),
{
    text.to_lowercase()
}

/// `<=` on `String`: the texts compare character by character by scalar
/// value, a proper prefix coming first.
#[verifier::external_body]
fn string_le(a: &String, b: &String) -> (le: bool)
    ensures
        le == text_le(a@, b@),
{
    a <= b
}

proof fn lemma_text_le_total(a: Seq<char>, b: Seq<char>)
    ensures
        text_le(a, b) || text_le(b, a),
    decreases a.len(),
{
    if a.len() > 0 && b.len() > 0 {
        vstd::utf8::char_u32_cast(a[0], a[0] as u32);
        vstd::utf8::char_u32_cast(b[0], b[0] as u32);
        if a[0] == b[0] {
            lemma_text_le_total(a.drop_first(), b.drop_first());
        }
    }
}

proof fn lemma_text_le_antisymmetric(a: Seq<char>, b: Seq<char>)
    requires
        text_le(a, b),
        text_le(b, a),
    ensures
        a == b,
    decreases a.len(),
{
    if a.len() > 0 {
        vstd::utf8::char_u32_cast(a[0], a[0] as u32);
        vstd::utf8::char_u32_cast(b[0], b[0] as u32);
        lemma_text_le_antisymmetric(a.drop_first(), b.drop_first());
        assert(a =~= seq![a[0]] + a.drop_first());
        assert(b =~= seq![b[0]] + b.drop_first());
    }
}

proof fn lemma_text_le_transitive(a: Seq<char>, b: Seq<char>, c: Seq<char>)
    requires
        text_le(a, b),
        text_le(b, c),
    ensures
        text_le(a, c),
    decreases a.len(),
{
    if a.len() > 0 {
        vstd::utf8::char_u32_cast(a[0], a[0] as u32);
        vstd::utf8::char_u32_cast(b[0], b[0] as u32);
        vstd::utf8::char_u32_cast(c[0], c[0] as u32);
        if a[0] == b[0] && b[0] == c[0] {
            lemma_text_le_transitive(a.drop_first(), b.drop_first(), c.drop_first());
        }
    }
}

/// Source windows are listed by process name, then by title, ignoring case.
pub open spec fn window_key(w: WindowInfo) -> (Seq<char>, Seq<char>) {
    (spec_to_lowercase(w.process_name@), spec_to_lowercase(w.title@))
}

pub open spec fn key_le(a: (Seq<char>, Seq<char>), b: (Seq<char>, Seq<char>)) -> bool {
    if a.0 != b.0 { text_le(a.0, b.0) } else { text_le(a.1, b.1) }
}

pub open spec fn window_order() -> spec_fn(WindowInfo, WindowInfo) -> bool {
    |a: WindowInfo, b: WindowInfo| key_le(window_key(a), window_key(b))
}

proof fn lemma_key_total(a: (Seq<char>, Seq<char>), b: (Seq<char>, Seq<char>))
    ensures
        key_le(a, b) || key_le(b, a),
{
    lemma_text_le_total(a.0, b.0);
    lemma_text_le_total(a.1, b.1);
}

proof fn lemma_key_transitive(a: (Seq<char>, Seq<char>), b: (Seq<char>, Seq<char>), c: (Seq<char>, Seq<char>))
    requires
        key_le(a, b),
        key_le(b, c),
    ensures
        key_le(a, c),
{
    if a.0 != b.0 && b.0 != c.0 {
        lemma_text_le_transitive(a.0, b.0, c.0);
        if a.0 == c.0 {
            lemma_text_le_antisymmetric(a.0, b.0);
        }
    } else if a.0 == b.0 && b.0 == c.0 {
        lemma_text_le_transitive(a.1, b.1, c.1);
    }
}

fn key_precedes(a: &(String, String), b: &(String, String)) -> (r: bool)
    ensures
        r == key_le((a.0@, a.1@), (b.0@, b.1@)),
{
    if a.0 == b.0 {
        string_le(&a.1, &b.1)
    } else {
        string_le(&a.0, &b.0)
    }
}

/// Names whether a character has the Unicode White_Space property, as
/// `char::is_whitespace` reports it.
pub uninterp spec fn spec_is_whitespace(c: char) -> bool;

/// `char::is_whitespace`; its result is named by `spec_is_whitespace`.
#[verifier::external_body]
fn is_whitespace(c: char) -> (white: bool)
    ensures
        white == spec_is_whitespace(c),
{
    c.is_whitespace()
}

/// Text that trimming leaves empty: every character is white space.
pub open spec fn is_blank(text: Seq<char>) -> bool {
    forall|i: int| 0 <= i < text.len() ==> spec_is_whitespace(#[trigger] text[i])
}

/// The name shown for a display: the adapter's description, or the device
/// name when the description is blank.
pub open spec fn spec_monitor_name(description: Seq<char>, device: Seq<char>) -> Seq<char> {
    if is_blank(description) { device } else { description }
}

pub fn monitor_name(description: String, device: &str) -> (name: String)
    ensures
        name@ == spec_monitor_name(description@, device@),
{
    let length = description.as_str().unicode_len();
    let mut i: usize = 0;
    while i < length
        invariant
            length == description@.len(),
            i <= length,
            forall|j: int| 0 <= j < i ==> spec_is_whitespace(#[trigger] description@[j]),
        decreases length - i,
    {
        if !is_whitespace(description.as_str().get_char(i)) {
            return description;
        }
        i = i + 1;
    }
    device.to_owned()
}

/// Whether an enumerated top-level window is offered as a source: it has a
/// title, belongs to another process and measures at least 160 by 90 pixels.
pub open spec fn spec_is_listable(title: Seq<char>, owner: Option<u32>, own_process: u32, rect: [i32; 4]) -> bool {
    &&& title.len() > 0
    &&& owner != Some(own_process)
    &&& rect[2] - rect[0] >= 160
    &&& rect[3] - rect[1] >= 90
}

pub fn is_listable(title: &str, owner: Option<u32>, own_process: u32, rect: [i32; 4]) -> (listed: bool)
    ensures
        listed == spec_is_listable(title@, owner, own_process, rect),
{
    let same_process = match owner {
        Some(process) => process == own_process,
        None => false,
    };
    !title.is_empty() && !same_process && rect[2] as i64 - rect[0] as i64 >= 160
        && rect[3] as i64 - rect[1] as i64 >= 90
}

/// Orders source windows by process name, then title, ignoring case; windows
/// with equal names keep their enumeration order.
pub fn order_windows(windows: Vec<WindowInfo>) -> (sorted: Vec<WindowInfo>)
    ensures
        exists|perm: Seq<int>| is_stable_order(windows@, sorted@, perm, window_order()),
{
    let ghost original = windows@;
    let ghost n = original.len();
    let mut input = windows;
    let mut sorted: Vec<WindowInfo> = Vec::new();
    let mut sorted_keys: Vec<(String, String)> = Vec::new();
    let ghost mut perm: Seq<int> = Seq::empty();
    assert(original.skip(0) =~= original);
    while input.len() > 0
        invariant
            n == original.len(),
            input@.len() <= n,
            input@ == original.skip(n - input@.len()),
            perm.len() == n - input@.len(),
            sorted@.len() == perm.len(),
            sorted_keys@.len() == sorted@.len(),
            forall|k: int| 0 <= k < sorted_keys@.len() ==>
                (#[trigger] sorted_keys@[k]).0@ == window_key(sorted@[k]).0 && sorted_keys@[k].1@ == window_key(sorted@[k]).1,
            forall|k: int| 0 <= k < perm.len() ==> 0 <= #[trigger] perm[k] < n - input@.len(),
            forall|k: int| 0 <= k < perm.len() ==> #[trigger] sorted@[k] == original[perm[k]],
            forall|k: int, l: int| 0 <= k < l < perm.len() ==> perm[k] != perm[l],
            forall|k: int, l: int|
                0 <= k < l < sorted@.len() ==> key_le(window_key(sorted@[k]), window_key(sorted@[l])),
            forall|k: int, l: int|
                0 <= k < l < sorted@.len() && key_le(window_key(sorted@[l]), window_key(sorted@[k]))
                    ==> perm[k] < perm[l],
        decreases input@.len(),
    {
        let ghost i: int = n - input@.len();
        let ghost before = sorted@;
        let ghost before_keys = sorted_keys@;
        let ghost waiting = input@;
        assert(waiting[0] == original[i]);
        let window = input.remove(0);
        assert(input@ =~= original.skip(n - input@.len()));
        let key = (to_lowercase(window.process_name.as_str()), to_lowercase(window.title.as_str()));
        let ghost x = window_key(window);
        let mut j: usize = 0;
        while j < sorted_keys.len() && key_precedes(&sorted_keys[j], &key)
            invariant
                sorted@ == before,
                sorted_keys@ == before_keys,
                before_keys.len() == before.len(),
                forall|k: int| 0 <= k < before_keys.len() ==>
                    (#[trigger] before_keys[k]).0@ == window_key(before[k]).0 && before_keys[k].1@ == window_key(before[k]).1,
                key.0@ == x.0,
                key.1@ == x.1,
                j <= sorted@.len(),
                forall|k: int| 0 <= k < j ==> key_le(window_key(#[trigger] before[k]), x),
            decreases sorted@.len() - j,
        {
            proof {
                assert(before_keys[j as int].0@ == window_key(before[j as int]).0);
            }
            j = j + 1;
        }
        proof {
            if j < before.len() {
                assert(before_keys[j as int].0@ == window_key(before[j as int]).0);
                assert(!key_le(window_key(before[j as int]), x));
                lemma_key_total(window_key(before[j as int]), x);
            }
        }
        sorted.insert(j, window);
        sorted_keys.insert(j, key);
        proof {
            perm = perm.insert(j as int, i);
            assert forall|k: int| 0 <= k < sorted_keys@.len() implies
                (#[trigger] sorted_keys@[k]).0@ == window_key(sorted@[k]).0 && sorted_keys@[k].1@ == window_key(sorted@[k]).1 by {
                if k < j {
                    assert(sorted_keys@[k] == before_keys[k]);
                } else if k > j {
                    assert(sorted_keys@[k] == before_keys[k - 1]);
                }
            }
            assert forall|k: int, l: int| 0 <= k < l < sorted@.len() implies
                key_le(window_key(sorted@[k]), window_key(sorted@[l])) by {
                if k < j && l == j {
                } else if k == j && l > j {
                    if l - 1 > j {
                        assert(key_le(window_key(before[j as int]), window_key(before[l - 1])));
                        lemma_key_transitive(x, window_key(before[j as int]), window_key(before[l - 1]));
                    }
                } else if k < j && l > j {
                    assert(key_le(window_key(before[k]), window_key(before[l - 1])));
                } else if l < j {
                    assert(key_le(window_key(before[k]), window_key(before[l])));
                } else {
                    assert(key_le(window_key(before[k - 1]), window_key(before[l - 1])));
                }
            }
            assert forall|k: int, l: int|
                0 <= k < l < sorted@.len() && key_le(window_key(sorted@[l]), window_key(sorted@[k])) implies perm[k] < perm[l] by {
                if k == j && l > j {
                    if l - 1 > j {
                        assert(key_le(window_key(before[j as int]), window_key(before[l - 1])));
                        lemma_key_transitive(window_key(before[j as int]), window_key(before[l - 1]), x);
                    }
                } else if k < j && l > j {
                    assert(key_le(window_key(before[l - 1]), window_key(before[k])));
                } else if l < j {
                    assert(key_le(window_key(before[l]), window_key(before[k])));
                } else if k > j {
                    assert(key_le(window_key(before[l - 1]), window_key(before[k - 1])));
                }
            }
        }
    }
    proof {
        assert(is_stable_order(original, sorted@, perm, window_order()));
    }
    sorted
}

} // verus!
