//! The colours of calendars: which one a calendar gets, and which text can be read on it.

use crate::luminance::{brightness, brightness_of};
use crate::model::text_of;
use crate::paths::{config_file, file_in_config, ConfigEnv};
use crate::sorting::{as_rows, in_key_order, key_texts, lemma_key_order_arranges};
use crate::sorting::{lemma_key_order_sorts, lemma_texts_ordered, sort_texts, text_order, TextKey};
use crate::text::{chars_of, same, text_le};
use vstd::prelude::*;

verus! {

/// The colours for calendars whose server names none, in turn.
pub const CALENDAR_PALETTE: [&'static str; 10] = [
    "#3584e4",
    "#f66151",
    "#33d17a",
    "#ff9f0a",
    "#c061cb",
    "#1a5fb4",
    "#e5a50a",
    "#9141ac",
    "#e01b24",
    "#56b9c4",
];

/// How many colours there are in the palette.
pub const PALETTE_LEN: usize = 10;

/// The colour of a calendar that has none yet.
pub const DEFAULT_CHECK_COLOR: &'static str = "#9a9996";

/// Where the colours are kept.
pub fn colors_path(env: &ConfigEnv) -> (r: String)
    ensures
        r@ == config_file(*env, "calendar-colors.json"@),
{
    file_in_config(env, "calendar-colors.json")
}

/// A hexadecimal digit.
pub open spec fn hex_digit(c: char) -> bool {
    '0' <= c <= '9' || 'a' <= c <= 'f' || 'A' <= c <= 'F'
}

/// The value of a hexadecimal digit.
pub open spec fn hex_value(c: char) -> int {
    if '0' <= c <= '9' {
        c as int - '0' as int
    } else if 'a' <= c <= 'f' {
        c as int - 'a' as int + 10
    } else {
        c as int - 'A' as int + 10
    }
}

/// All characters are hexadecimal digits.
pub open spec fn all_hex(s: Seq<char>) -> bool {
    forall|i: int| 0 <= i < s.len() ==> hex_digit(#[trigger] s[i])
}

fn is_hex(c: char) -> (r: bool)
    ensures
        r == hex_digit(c),
{
    ('0' <= c && c <= '9') || ('a' <= c && c <= 'f') || ('A' <= c && c <= 'F')
}

fn value_of(c: char) -> (r: u8)
    requires
        hex_digit(c),
    ensures
        r == hex_value(c),
        r < 16,
{
    if '0' <= c && c <= '9' {
        c as u8 - 48
    } else if 'a' <= c && c <= 'f' {
        c as u8 - 97 + 10
    } else {
        c as u8 - 65 + 10
    }
}

fn hex_start(s: &[char], n: usize) -> (r: bool)
    requires
        n <= s@.len(),
    ensures
        r == all_hex(s@.take(n as int)),
{
    let mut i: usize = 0;
    while i < n
        invariant
            i <= n <= s@.len(),
            forall|k: int| 0 <= k < i ==> hex_digit(#[trigger] s@.take(n as int)[k]),
        decreases n - i,
    {
        if !is_hex(s[i]) {
            assert(!hex_digit(s@.take(n as int)[i as int]));
            return false;
        }
        i += 1;
    }
    true
}

/// Whether all characters are hexadecimal digits.
pub fn hex_chars(s: &Vec<char>) -> (r: bool)
    ensures
        r == all_hex(s@),
{
    assert(s@.take(s@.len() as int) =~= s@);
    hex_start(s.as_slice(), s.len())
}

/// A well-formed colour: `#` and three, six or eight hexadecimal digits.
pub open spec fn hex_color(c: Seq<char>) -> bool {
    c.len() > 0 && c[0] == '#' && (c.len() == 4 || c.len() == 7 || c.len() == 9) && all_hex(c.skip(1))
}

/// Whether a colour is well-formed.
pub fn is_hex_color(c: &str) -> (r: bool)
    ensures
        r == hex_color(c@),
{
    let chars = chars_of(c);
    if chars.len() == 0 || chars[0] != '#' {
        return false;
    }
    if chars.len() != 4 && chars.len() != 7 && chars.len() != 9 {
        return false;
    }
    let mut i: usize = 1;
    while i < chars.len()
        invariant
            1 <= i <= chars.len(),
            chars@ == c@,
            forall|k: int| 0 <= k < i - 1 ==> hex_digit(#[trigger] c@.skip(1)[k]),
        decreases chars.len() - i,
    {
        if !is_hex(chars[i]) {
            assert(c@.skip(1)[i - 1] == chars@[i as int]);
            return false;
        }
        i += 1;
    }
    true
}

/// The colour of a calendar: the one that its server names, if that is well-formed, or else the one
/// to fall back on.
pub open spec fn resolved(server_color: Option<Seq<char>>, fallback: Seq<char>) -> Seq<char> {
    match server_color {
        Some(c) => if hex_color(c) {
            c
        } else {
            fallback
        },
        None => fallback,
    }
}

/// The colour of a calendar.
pub fn resolve_color(server_color: Option<&str>, fallback: &str) -> (r: String)
    ensures
        r@ == resolved(
            match server_color {
                Some(c) => Some(c@),
                None => None,
            },
            fallback@,
        ),
{
    match server_color {
        Some(c) => if is_hex_color(c) {
            c.to_owned()
        } else {
            fallback.to_owned()
        },
        None => fallback.to_owned(),
    }
}

/// The red, green and blue of three digits, each taken twice; nothing if they are no hexadecimal
/// digits or fewer than three.
pub open spec fn expanded_rgb(body: Seq<char>) -> Option<(int, int, int)> {
    if all_hex(body) && body.len() >= 3 {
        Some((17 * hex_value(body[0]), 17 * hex_value(body[1]), 17 * hex_value(body[2])))
    } else {
        None
    }
}

/// Red, green and blue as numbers.
pub open spec fn rgb(c: Option<(u8, u8, u8)>) -> Option<(int, int, int)> {
    match c {
        Some((r, g, b)) => Some((r as int, g as int, b as int)),
        None => None,
    }
}

fn expanded(body: &[char]) -> (r: Option<(u8, u8, u8)>)
    ensures
        rgb(r) == expanded_rgb(body@),
{
    assert(body@.take(body@.len() as int) =~= body@);
    if !hex_start(body, body.len()) || body.len() < 3 {
        return None;
    }
    assert(hex_digit(body@[0]) && hex_digit(body@[1]) && hex_digit(body@[2]));
    Some((17 * value_of(body[0]), 17 * value_of(body[1]), 17 * value_of(body[2])))
}

/// The red, green and blue of three digits, each taken twice.
pub fn parse_expanded_hex(body: &str) -> (r: Option<(u8, u8, u8)>)
    ensures
        rgb(r) == expanded_rgb(body@),
{
    let chars = chars_of(body);
    expanded(chars.as_slice())
}

/// The value of two hexadecimal digits.
pub open spec fn hex_pair(s: Seq<char>, i: int) -> int {
    16 * hex_value(s[i]) + hex_value(s[i + 1])
}

/// The red, green and blue of a well-formed colour: of three digits each one twice, of six or eight
/// the first six.
pub open spec fn color_rgb(c: Seq<char>) -> Option<(int, int, int)> {
    let body = c.skip(1);
    if !hex_color(c) {
        None
    } else if body.len() == 3 {
        expanded_rgb(body)
    } else {
        Some((hex_pair(body, 0), hex_pair(body, 2), hex_pair(body, 4)))
    }
}

/// The red, green and blue of a colour; nothing for a text that is not well-formed.
pub fn parse_hex_rgb(c: &str) -> (r: Option<(u8, u8, u8)>)
    ensures
        rgb(r) == color_rgb(c@),
        r is Some <==> hex_color(c@),
{
    if !is_hex_color(c) {
        return None;
    }
    let chars = chars_of(c);
    proof {
        assert forall|k: int| 1 <= k < chars@.len() implies hex_digit(#[trigger] chars@[k]) by {
            assert(c@.skip(1)[k - 1] == chars@[k]);
        }
    }
    if chars.len() == 4 {
        return Some((17 * value_of(chars[1]), 17 * value_of(chars[2]), 17 * value_of(chars[3])));
    }
    Some(
        (
            16 * value_of(chars[1]) + value_of(chars[2]),
            16 * value_of(chars[3]) + value_of(chars[4]),
            16 * value_of(chars[5]) + value_of(chars[6]),
        ),
    )
}

/// The transparency of a colour does not matter.
pub proof fn lemma_alpha_ignored(c: Seq<char>)
    requires
        c.len() == 9,
        hex_color(c),
    ensures
        color_rgb(c) == color_rgb(c.take(7)),
{
    let six = c.take(7).skip(1);
    assert forall|k: int| 0 <= k < six.len() implies hex_digit(#[trigger] six[k]) by {
        assert(six[k] == c.skip(1)[k]);
    }
}

/// A colour of three digits is the one with each digit twice.
pub proof fn lemma_short_color(r: char, g: char, b: char)
    requires
        hex_digit(r),
        hex_digit(g),
        hex_digit(b),
    ensures
        color_rgb(seq!['#', r, g, b]) == color_rgb(seq!['#', r, r, g, g, b, b]),
{
    let short = seq!['#', r, g, b].skip(1);
    let long = seq!['#', r, r, g, g, b, b].skip(1);
    assert(short =~= seq![r, g, b]);
    assert(long =~= seq![r, r, g, g, b, b]);
}

/// The colour of text on a background: black on one that is brighter than two fifths of white,
/// white on any other and on one that is no colour.
pub open spec fn foreground(background: Seq<char>) -> Seq<char> {
    match color_rgb(background) {
        Some((r, g, b)) => if brightness(r as u8, g as u8, b as u8) > 4_000_000_000_000 {
            "black"@
        } else {
            "white"@
        },
        None => "white"@,
    }
}

/// The colour of text that can be read on a background.
pub fn readable_foreground(background: &str) -> (r: &'static str)
    ensures
        r@ == foreground(background@),
{
    match parse_hex_rgb(background) {
        Some((r, g, b)) => if brightness_of(r, g, b) > 4_000_000_000_000 {
            "black"
        } else {
            "white"
        },
        None => "white",
    }
}

/// A calendar on a server.
#[derive(Debug)]
pub struct CalendarInfo {
    pub id: String,
    pub account_id: String,
    pub display_name: String,
    pub color: Option<String>,
    pub href: String,
}

/// The id of a calendar and the colour that its server names.
pub struct ColorRequest {
    pub id: Seq<char>,
    pub color: Option<Seq<char>>,
}

/// The id of each calendar and the colour that its server names.
pub open spec fn requests(calendars: Seq<CalendarInfo>) -> Seq<ColorRequest> {
    calendars.map_values(|c: CalendarInfo| ColorRequest { id: c.id@, color: text_of(c.color) })
}

/// A calendar and its colour.
#[derive(Debug)]
pub struct ColorEntry {
    pub id: String,
    pub color: String,
}

/// The colours of calendars.
#[derive(Debug)]
pub struct CalendarColorMap {
    pub entries: Vec<ColorEntry>,
}

/// The colours by the ids of the calendars. Of two entries for one calendar the later one counts.
pub open spec fn colors_of(entries: Seq<ColorEntry>) -> Map<Seq<char>, Seq<char>>
    decreases entries.len(),
{
    if entries.len() == 0 {
        Map::empty()
    } else {
        colors_of(entries.drop_last()).insert(entries.last().id@, entries.last().color@)
    }
}

impl View for CalendarColorMap {
    type V = Map<Seq<char>, Seq<char>>;

    open spec fn view(&self) -> Map<Seq<char>, Seq<char>> {
        colors_of(self.entries@)
    }
}

impl CalendarColorMap {
    /// No colours.
    pub fn new() -> (r: CalendarColorMap)
        ensures
            r@ == Map::<Seq<char>, Seq<char>>::empty(),
    {
        CalendarColorMap { entries: Vec::new() }
    }

    /// The colour of a calendar, if it has one.
    pub fn get(&self, id: &str) -> (r: Option<&str>)
        ensures
            match r {
                Some(color) => self@.contains_key(id@) && self@[id@] == color@,
                None => !self@.contains_key(id@),
            },
    {
        let ghost all = self.entries@;
        let mut n: usize = self.entries.len();
        assert(all.take(n as int) =~= all);
        while n > 0
            invariant
                n <= self.entries.len(),
                all == self.entries@,
                colors_of(all).contains_key(id@) == colors_of(all.take(n as int)).contains_key(id@),
                colors_of(all).contains_key(id@) ==> colors_of(all)[id@] == colors_of(
                    all.take(n as int),
                )[id@],
            decreases n,
        {
            assert(all.take(n as int).drop_last() =~= all.take(n - 1));
            if same(&self.entries[n - 1].id, id) {
                return Some(self.entries[n - 1].color.as_str());
            }
            n -= 1;
        }
        None
    }

    /// Gives a calendar a colour.
    pub fn insert(&mut self, id: &str, color: String)
        ensures
            final(self)@ == old(self)@.insert(id@, color@),
    {
        let ghost before = self.entries@;
        let e = ColorEntry { id: id.to_owned(), color };
        self.entries.push(e);
        assert(self.entries@.drop_last() =~= before);
    }
}

/// Calendars in the order of their ids.
pub open spec fn by_id(calendars: Seq<ColorRequest>) -> Seq<ColorRequest> {
    text_order(calendars.map_values(|c: ColorRequest| c.id)).map_values(|i: int| calendars[i])
}

/// The colour of the palette at a place, counted round and round.
pub open spec fn palette_color(i: int) -> Seq<char> {
    CALENDAR_PALETTE[i % PALETTE_LEN as int]@
}

/// The colours after the first `n` calendars got one, if they had none: that of the server, or else
/// the one of the palette at the calendar's place.
pub open spec fn assigned(
    colors: Map<Seq<char>, Seq<char>>,
    calendars: Seq<ColorRequest>,
    n: int,
) -> Map<Seq<char>, Seq<char>>
    decreases n,
{
    if n <= 0 {
        colors
    } else {
        let before = assigned(colors, calendars, n - 1);
        let c = calendars[n - 1];
        if before.contains_key(c.id) {
            before
        } else {
            before.insert(c.id, resolved(c.color, palette_color(n - 1)))
        }
    }
}

/// The colours after all calendars got one, if they had none.
pub open spec fn with_missing(
    colors: Map<Seq<char>, Seq<char>>,
    calendars: Seq<ColorRequest>,
) -> Map<Seq<char>, Seq<char>> {
    assigned(colors, by_id(calendars), calendars.len() as int)
}

/// Gives a colour to every calendar that has none. Whether there was one is what is returned: then
/// the colours have to be kept.
pub fn assign_missing(map: &mut CalendarColorMap, calendars: &Vec<CalendarInfo>) -> (r: bool)
    ensures
        final(map)@ == with_missing(old(map)@, requests(calendars@)),
        r == (final(map)@ != old(map)@),
{
    let ghost start = map@;
    let ghost wanted = requests(calendars@);
    let ghost ids = wanted.map_values(|c: ColorRequest| c.id);
    let mut keys: Vec<TextKey> = Vec::new();
    let mut i: usize = 0;
    while i < calendars.len()
        invariant
            i <= calendars.len(),
            wanted == requests(calendars@),
            ids == wanted.map_values(|c: ColorRequest| c.id),
            key_texts(keys@) == ids.take(i as int),
        decreases calendars.len() - i,
    {
        let ghost before = key_texts(keys@);
        let key = TextKey { text: calendars[i].id.clone() };
        keys.push(key);
        assert(key_texts(keys@) =~= before.push(key.text@));
        assert(ids.take(i + 1) =~= ids.take(i as int).push(ids[i as int]));
        i += 1;
    }
    assert(ids.take(i as int) =~= ids);
    assert(key_texts(keys@).len() == keys@.len());
    let order = sort_texts(&keys);
    let ghost sorted = by_id(wanted);
    assert(as_rows(order@).len() == order@.len());
    let mut added = false;
    let mut index: usize = 0;
    while index < order.len()
        invariant
            index <= order.len() == calendars@.len(),
            wanted == requests(calendars@),
            as_rows(order@) == text_order(wanted.map_values(|c: ColorRequest| c.id)),
            sorted == by_id(wanted),
            forall|k: int| 0 <= k < order@.len() ==> #[trigger] order@[k] < calendars@.len(),
            map@ == assigned(start, sorted, index as int),
            added == (map@ != start),
            forall|id: Seq<char>| start.contains_key(id) ==> map@.contains_key(id),
            !added ==> map@ == start,
        decreases order.len() - index,
    {
        let k: usize = order[index];
        let calendar = &calendars[k];
        proof {
            assert(as_rows(order@)[index as int] == k);
            assert(sorted[index as int] == wanted[k as int]);
        }
        if map.get(&calendar.id).is_none() {
            let fallback = CALENDAR_PALETTE[index % PALETTE_LEN];
            let server: Option<&str> = match &calendar.color {
                Some(c) => Some(c.as_str()),
                None => None,
            };
            let color = resolve_color(server, fallback);
            map.insert(&calendar.id, color);
            added = true;
            proof {
                if map@ == start {
                    assert(start.contains_key(calendar.id@));
                }
            }
        }
        index += 1;
    }
    added
}

proof fn lemma_assigned_keeps(
    colors: Map<Seq<char>, Seq<char>>,
    calendars: Seq<ColorRequest>,
    n: int,
    id: Seq<char>,
)
    requires
        colors.contains_key(id),
    ensures
        assigned(colors, calendars, n).contains_key(id),
        assigned(colors, calendars, n)[id] == colors[id],
    decreases n,
{
    if n > 0 {
        lemma_assigned_keeps(colors, calendars, n - 1, id);
    }
}

proof fn lemma_assigned_covers(
    colors: Map<Seq<char>, Seq<char>>,
    calendars: Seq<ColorRequest>,
    n: int,
    i: int,
)
    requires
        0 <= i < n,
    ensures
        assigned(colors, calendars, n).contains_key(calendars[i].id),
    decreases n,
{
    if i < n - 1 {
        lemma_assigned_covers(colors, calendars, n - 1, i);
    }
}

proof fn lemma_assigned_complete(colors: Map<Seq<char>, Seq<char>>, calendars: Seq<ColorRequest>, n: int)
    requires
        forall|i: int| 0 <= i < n ==> colors.contains_key((#[trigger] calendars[i]).id),
    ensures
        assigned(colors, calendars, n) == colors,
    decreases n,
{
    if n > 0 {
        lemma_assigned_complete(colors, calendars, n - 1);
        assert(colors.contains_key(calendars[n - 1].id));
    }
}

/// A colour that a calendar has is never changed.
pub proof fn lemma_colors_stay(
    colors: Map<Seq<char>, Seq<char>>,
    calendars: Seq<ColorRequest>,
    id: Seq<char>,
)
    requires
        colors.contains_key(id),
    ensures
        with_missing(colors, calendars).contains_key(id),
        with_missing(colors, calendars)[id] == colors[id],
{
    lemma_assigned_keeps(colors, by_id(calendars), calendars.len() as int, id);
}

proof fn lemma_by_id_holds(calendars: Seq<ColorRequest>)
    ensures
        by_id(calendars).len() == calendars.len(),
        forall|c: ColorRequest| #[trigger] by_id(calendars).contains(c) <==> calendars.contains(c),
{
    let ids = calendars.map_values(|c: ColorRequest| c.id);
    lemma_key_order_arranges(ids);
    let order = text_order(ids);
    let sorted = by_id(calendars);
    assert forall|c: ColorRequest| #[trigger] sorted.contains(c) <==> calendars.contains(c) by {
        if sorted.contains(c) {
            let k = choose|k: int| 0 <= k < sorted.len() && sorted[k] == c;
            assert(0 <= order[k] < calendars.len());
            assert(calendars[order[k]] == c);
        }
        if calendars.contains(c) {
            let i = choose|i: int| 0 <= i < calendars.len() && calendars[i] == c;
            assert(order.contains(i));
            let k = choose|k: int| 0 <= k < order.len() && order[k] == i;
            assert(sorted[k] == c);
        }
    }
}

/// Every calendar has a colour afterwards.
pub proof fn lemma_every_calendar_colored(
    colors: Map<Seq<char>, Seq<char>>,
    calendars: Seq<ColorRequest>,
    i: int,
)
    requires
        0 <= i < calendars.len(),
    ensures
        with_missing(colors, calendars).contains_key(calendars[i].id),
{
    lemma_by_id_holds(calendars);
    let sorted = by_id(calendars);
    assert(calendars.contains(calendars[i]));
    assert(sorted.contains(calendars[i]));
    let k = choose|k: int| 0 <= k < sorted.len() && sorted[k] == calendars[i];
    lemma_assigned_covers(colors, sorted, calendars.len() as int, k);
}

/// Giving colours twice changes nothing.
pub proof fn lemma_assigning_again(colors: Map<Seq<char>, Seq<char>>, calendars: Seq<ColorRequest>)
    ensures
        with_missing(with_missing(colors, calendars), calendars) == with_missing(colors, calendars),
{
    let n = calendars.len() as int;
    let sorted = by_id(calendars);
    lemma_by_id_holds(calendars);
    let first = with_missing(colors, calendars);
    assert forall|i: int| 0 <= i < n implies first.contains_key((#[trigger] sorted[i]).id) by {
        lemma_assigned_covers(colors, sorted, n, i);
    }
    lemma_assigned_complete(first, sorted, n);
}

/// No two calendars have the same id.
pub open spec fn distinct_ids(calendars: Seq<ColorRequest>) -> bool {
    forall|i: int, j: int|
        0 <= i < j < calendars.len() ==> (#[trigger] calendars[i]).id != (#[trigger] calendars[j]).id
}

proof fn lemma_by_id_ascends(calendars: Seq<ColorRequest>)
    requires
        distinct_ids(calendars),
    ensures
        distinct_ids(by_id(calendars)),
        forall|a: int, b: int|
            0 <= a < b < by_id(calendars).len() ==> text_le(
                (#[trigger] by_id(calendars)[a]).id,
                (#[trigger] by_id(calendars)[b]).id,
            ),
{
    let ids = calendars.map_values(|c: ColorRequest| c.id);
    lemma_texts_ordered();
    lemma_key_order_sorts(ids);
    lemma_key_order_arranges(ids);
    let order = text_order(ids);
    let sorted = by_id(calendars);
    assert forall|a: int, b: int| 0 <= a < b < sorted.len() implies text_le(
        (#[trigger] sorted[a]).id,
        (#[trigger] sorted[b]).id,
    ) && sorted[a].id != sorted[b].id by {
        assert(in_key_order(ids, order[a], order[b]));
        assert(0 <= order[a] < calendars.len() && 0 <= order[b] < calendars.len());
        assert(order[a] != order[b]);
        if order[a] < order[b] {
            assert(calendars[order[a]].id != calendars[order[b]].id);
        } else {
            assert(calendars[order[b]].id != calendars[order[a]].id);
        }
    }
}

proof fn lemma_text_le_both(a: Seq<char>, b: Seq<char>)
    requires
        text_le(a, b),
        text_le(b, a),
    ensures
        a == b,
    decreases a.len(),
{
    if a.len() > 0 && b.len() > 0 {
        lemma_text_le_both(a.drop_first(), b.drop_first());
        assert(a =~= seq![a[0]] + a.drop_first());
        assert(b =~= seq![b[0]] + b.drop_first());
    } else {
        assert(a =~= b);
    }
}

proof fn lemma_same_ascending(a: Seq<ColorRequest>, b: Seq<ColorRequest>)
    requires
        distinct_ids(a),
        distinct_ids(b),
        forall|i: int, j: int| 0 <= i < j < a.len() ==> text_le((#[trigger] a[i]).id, (#[trigger] a[j]).id),
        forall|i: int, j: int| 0 <= i < j < b.len() ==> text_le((#[trigger] b[i]).id, (#[trigger] b[j]).id),
        forall|c: ColorRequest| #[trigger] a.contains(c) <==> b.contains(c),
    ensures
        a == b,
    decreases a.len(),
{
    if a.len() == 0 {
        if b.len() > 0 {
            assert(b.contains(b[0]));
            assert(a.contains(b[0]));
        }
        assert(a =~= b);
    } else {
        assert(a.contains(a.last()));
        assert(b.contains(a.last()));
        let x = a.last();
        let y = b.last();
        assert(b.contains(y));
        assert(a.contains(y));
        let i = choose|i: int| 0 <= i < a.len() && a[i] == y;
        let j = choose|j: int| 0 <= j < b.len() && b[j] == x;
        let m = a.len() - 1;
        let n = b.len() - 1;
        if i < m && j < n {
            assert(text_le(a[i].id, a[m].id));
            assert(text_le(b[j].id, b[n].id));
            lemma_text_le_both(x.id, y.id);
            assert(a[i].id != a[m].id);
        }
        assert(x == y);
        let a1 = a.drop_last();
        let b1 = b.drop_last();
        assert forall|c: ColorRequest| #[trigger] a1.contains(c) <==> b1.contains(c) by {
            if a1.contains(c) {
                let k = choose|k: int| 0 <= k < a1.len() && a1[k] == c;
                assert(a[k] == c);
                assert(a[k].id != a[m].id);
                assert(a.contains(c));
                assert(b.contains(c));
                let l = choose|l: int| 0 <= l < b.len() && b[l] == c;
                assert(l != n);
                assert(b1[l] == c);
            }
            if b1.contains(c) {
                let k = choose|k: int| 0 <= k < b1.len() && b1[k] == c;
                assert(b[k] == c);
                assert(b[k].id != b[n].id);
                assert(b.contains(c));
                assert(a.contains(c));
                let l = choose|l: int| 0 <= l < a.len() && a[l] == c;
                assert(l != m);
                assert(a1[l] == c);
            }
        }
        assert forall|p: int, q: int| 0 <= p < q < a1.len() implies text_le(
            (#[trigger] a1[p]).id,
            (#[trigger] a1[q]).id,
        ) && a1[p].id != a1[q].id by {
            assert(a1[p] == a[p] && a1[q] == a[q]);
        }
        assert forall|p: int, q: int| 0 <= p < q < b1.len() implies text_le(
            (#[trigger] b1[p]).id,
            (#[trigger] b1[q]).id,
        ) && b1[p].id != b1[q].id by {
            assert(b1[p] == b[p] && b1[q] == b[q]);
        }
        lemma_same_ascending(a1, b1);
        assert(a =~= a1.push(x));
        assert(b =~= b1.push(y));
    }
}

/// The same calendars get the same colours, in whatever order they are given.
pub proof fn lemma_colors_ignore_order(
    colors: Map<Seq<char>, Seq<char>>,
    a: Seq<ColorRequest>,
    b: Seq<ColorRequest>,
)
    requires
        distinct_ids(a),
        distinct_ids(b),
        forall|c: ColorRequest| #[trigger] a.contains(c) <==> b.contains(c),
    ensures
        with_missing(colors, a) == with_missing(colors, b),
{
    lemma_by_id_holds(a);
    lemma_by_id_holds(b);
    lemma_by_id_ascends(a);
    lemma_by_id_ascends(b);
    let x = by_id(a);
    let y = by_id(b);
    assert forall|c: ColorRequest| #[trigger] x.contains(c) <==> y.contains(c) by {
        assert(x.contains(c) <==> a.contains(c));
        assert(y.contains(c) <==> b.contains(c));
    }
    lemma_same_ascending(x, y);
}

proof fn lemma_assigned_new(
    colors: Map<Seq<char>, Seq<char>>,
    calendars: Seq<ColorRequest>,
    n: int,
    k: int,
)
    requires
        distinct_ids(calendars),
        0 <= k < calendars.len(),
        n <= calendars.len(),
        !colors.contains_key(calendars[k].id),
    ensures
        n <= k ==> !assigned(colors, calendars, n).contains_key(calendars[k].id),
        n > k ==> assigned(colors, calendars, n).contains_key(calendars[k].id) && assigned(
            colors,
            calendars,
            n,
        )[calendars[k].id] == resolved(calendars[k].color, palette_color(k)),
    decreases n,
{
    if n > 0 {
        lemma_assigned_new(colors, calendars, n - 1, k);
        if n - 1 < k {
            assert(calendars[n - 1].id != calendars[k].id);
        } else if n - 1 > k {
            assert(calendars[k].id != calendars[n - 1].id);
        }
    }
}

/// A calendar that has no colour yet gets the one that its server gives it, if that is a colour, and
/// otherwise the one of the palette at its place among the ids.
pub proof fn lemma_new_calendar_colored(
    colors: Map<Seq<char>, Seq<char>>,
    calendars: Seq<ColorRequest>,
    i: int,
    k: int,
)
    requires
        distinct_ids(calendars),
        0 <= i < calendars.len(),
        !colors.contains_key(calendars[i].id),
        0 <= k < calendars.len(),
        by_id(calendars)[k] == calendars[i],
    ensures
        calendars[i].color is Some && hex_color(calendars[i].color->0) ==> with_missing(
            colors,
            calendars,
        )[calendars[i].id] == calendars[i].color->0,
        !(calendars[i].color is Some && hex_color(calendars[i].color->0)) ==> with_missing(
            colors,
            calendars,
        )[calendars[i].id] == CALENDAR_PALETTE[k % 10]@,
        forall|a: int| 0 <= a < k ==> text_le((#[trigger] by_id(calendars)[a]).id, calendars[i].id),
        forall|b: int| k < b < calendars.len() ==> text_le(calendars[i].id, (#[trigger] by_id(calendars)[b]).id),
{
    lemma_by_id_ascends(calendars);
    lemma_by_id_holds(calendars);
    lemma_assigned_new(colors, by_id(calendars), calendars.len() as int, k);
}

/// No colour is kept for anything but the calendars and what had one before.
pub proof fn lemma_no_other_colors(colors: Map<Seq<char>, Seq<char>>, calendars: Seq<ColorRequest>, id: Seq<char>)
    requires
        with_missing(colors, calendars).contains_key(id),
    ensures
        colors.contains_key(id) || exists|i: int| 0 <= i < calendars.len() && (#[trigger] calendars[i]).id == id,
{
    lemma_by_id_holds(calendars);
    lemma_assigned_only(colors, by_id(calendars), calendars.len() as int, id);
    if !colors.contains_key(id) {
        let sorted = by_id(calendars);
        let k = choose|k: int| 0 <= k < sorted.len() && (#[trigger] sorted[k]).id == id;
        assert(sorted.contains(sorted[k]));
        assert(calendars.contains(sorted[k]));
    }
}

proof fn lemma_assigned_only(colors: Map<Seq<char>, Seq<char>>, calendars: Seq<ColorRequest>, n: int, id: Seq<char>)
    requires
        n <= calendars.len(),
        assigned(colors, calendars, n).contains_key(id),
    ensures
        colors.contains_key(id) || exists|k: int| 0 <= k < n && (#[trigger] calendars[k]).id == id,
    decreases n,
{
    if n > 0 && calendars[n - 1].id != id {
        lemma_assigned_only(colors, calendars, n - 1, id);
    }
}

/// The bytes of a colour of six digits: the first two digits are its red, the next two its green and the
/// last two its blue.
pub proof fn lemma_color_bytes(c: Seq<char>)
    requires
        c.len() == 7,
        hex_color(c),
    ensures
        color_rgb(c) == Some(
            (
                16 * hex_value(c[1]) + hex_value(c[2]),
                16 * hex_value(c[3]) + hex_value(c[4]),
                16 * hex_value(c[5]) + hex_value(c[6]),
            ),
        ),
{
    let body = c.skip(1);
    assert(body[0] == c[1] && body[1] == c[2] && body[2] == c[3]);
    assert(body[3] == c[4] && body[4] == c[5] && body[5] == c[6]);
}

/// What is no colour has no bytes: fewer than three digits, or a character that is no digit.
pub proof fn lemma_no_color(body: Seq<char>)
    ensures
        body.len() < 3 ==> expanded_rgb(body) is None,
        (exists|i: int| 0 <= i < body.len() && !hex_digit(#[trigger] body[i])) ==> expanded_rgb(body) is None,
        (forall|i: int| 0 <= i < body.len() ==> hex_digit(#[trigger] body[i])) && body.len() >= 3 ==> expanded_rgb(body)
            is Some,
        color_rgb(body) is Some ==> body.len() == 4 || body.len() == 7 || body.len() == 9,
        color_rgb(body) is Some ==> body[0] == '#',
{
}

} // verus!
