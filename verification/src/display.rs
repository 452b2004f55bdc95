//! Displays, and where they stand in the driver's coordinates.
//!
//! Widths, heights and places are binary32 numbers, by their bits.

use crate::binary;
use crate::decimal;
use crate::readings;
use crate::readings::Readings;
use crate::text;
use vstd::arithmetic::power2;
use vstd::prelude::*;

verus! {

pub const TWO: u32 = 0x4000_0000;

pub const THREE: u32 = 0x4040_0000;

pub const INFINITY: u32 = 0x7f80_0000;

pub const INFINITY64: u64 = 0x7ff0_0000_0000_0000;

/// A display. `x` and `y` are the place of its centre.
#[derive(Debug)]
pub struct DisplayInfo {
    pub index: i32,
    pub label: String,
    pub width: u32,
    pub height: u32,
    pub x: u32,
    pub y: u32,
    pub detected: bool,
    pub primary: bool,
}

/// What a display is.
pub struct Display {
    pub index: i32,
    pub label: Seq<char>,
    pub width: u32,
    pub height: u32,
    pub x: u32,
    pub y: u32,
    pub detected: bool,
    pub primary: bool,
}

impl View for DisplayInfo {
    type V = Display;

    open spec fn view(&self) -> Display {
        Display {
            index: self.index,
            label: self.label@,
            width: self.width,
            height: self.height,
            x: self.x,
            y: self.y,
            detected: self.detected,
            primary: self.primary,
        }
    }
}

/// What some displays are.
pub open spec fn displays(list: Seq<DisplayInfo>) -> Seq<Display> {
    list.map_values(|display: DisplayInfo| display@)
}

impl Display {
    /// The display that stands in where none was found.
    pub open spec fn stand_in() -> Display {
        Display {
            index: 0,
            label: "Primary display · 1920 × 1080"@,
            width: 0x44f0_0000,
            height: 0x4487_0000,
            x: 0x4470_0000,
            y: 0x4407_0000,
            detected: false,
            primary: true,
        }
    }
}

impl DisplayInfo {
    /// The display that stands in where none was found.
    pub fn fallback() -> (display: DisplayInfo)
        ensures
            display@ == Display::stand_in(),
    {
        DisplayInfo {
            index: 0,
            label: "Primary display · 1920 × 1080".to_owned(),
            width: 0x44f0_0000,
            height: 0x4487_0000,
            x: 0x4470_0000,
            y: 0x4407_0000,
            detected: false,
            primary: true,
        }
    }
}

impl Clone for DisplayInfo {
    fn clone(&self) -> (display: DisplayInfo)
        ensures
            display@ == self@,
    {
        DisplayInfo {
            index: self.index,
            label: self.label.clone(),
            width: self.width,
            height: self.height,
            x: self.x,
            y: self.y,
            detected: self.detected,
            primary: self.primary,
        }
    }
}

// ---- labels ----

/// A width and a height without decimal places.
pub open spec fn size_text(width: u32, height: u32) -> Seq<char> {
    decimal::fixed32(width, 0) + " × "@ + decimal::fixed32(height, 0)
}

/// The label of the display at a place in the list.
pub open spec fn numbered_label(index: nat, width: u32, height: u32) -> Seq<char> {
    "Display "@ + decimal::decimal(index + 1) + " · "@ + size_text(width, height)
}

pub open spec fn primary_label(width: u32, height: u32) -> Seq<char> {
    "Primary display · "@ + size_text(width, height)
}

pub open spec fn label(index: nat, width: u32, height: u32, primary: bool) -> Seq<char> {
    if primary {
        primary_label(width, height)
    } else {
        numbered_label(index, width, height)
    }
}

fn push_size(out: &mut String, width: u32, height: u32)
    ensures
        final(out)@ == old(out)@ + size_text(width, height),
{
    let ghost before = out@;
    let first = decimal::fixed_text32(width, 0);
    let second = decimal::fixed_text32(height, 0);
    out.append(first.as_str());
    out.append(" × ");
    out.append(second.as_str());
    assert(out@ =~= before + size_text(width, height));
}

/// The label of the display at a place in the list.
pub fn display_label(index: usize, width: u32, height: u32) -> (text: String)
    ensures
        text@ == numbered_label(index as nat, width, height),
{
    let mut text = String::new();
    text.append("Display ");
    decimal::push_decimal(&mut text, index as u128 + 1);
    text.append(" · ");
    push_size(&mut text, width, height);
    assert(text@ =~= numbered_label(index as nat, width, height));
    text
}

fn label_text(index: usize, width: u32, height: u32, primary: bool) -> (text: String)
    ensures
        text@ == label(index as nat, width, height, primary),
{
    if primary {
        let mut text = String::new();
        text.append("Primary display · ");
        push_size(&mut text, width, height);
        assert(text@ =~= primary_label(width, height));
        text
    } else {
        display_label(index, width, height)
    }
}

// ---- the listing of xrandr ----

/// The first plus or minus sign.
pub open spec fn first_sign(s: Seq<char>) -> Option<int>
    decreases s.len(),
{
    if s.len() == 0 {
        None
    } else if s[0] == '+' || s[0] == '-' {
        Some(0)
    } else {
        match first_sign(s.drop_first()) {
            Some(i) => Some(i + 1),
            None => None,
        }
    }
}

pub proof fn first_sign_is_first(s: Seq<char>)
    ensures
        match first_sign(s) {
            Some(i) => 0 <= i < s.len() && (s[i] == '+' || s[i] == '-') && forall|k: int|
                0 <= k < i ==> s[k] != '+' && s[k] != '-',
            None => forall|k: int| 0 <= k < s.len() ==> s[k] != '+' && s[k] != '-',
        },
    decreases s.len(),
{
    if s.len() > 0 && s[0] != '+' && s[0] != '-' {
        let rest = s.drop_first();
        first_sign_is_first(rest);
        match first_sign(rest) {
            Some(i) => {
                assert(s[i + 1] == rest[i]);
                assert forall|k: int| 0 <= k < i + 1 implies s[k] != '+' && s[k] != '-' by {
                    if k > 0 {
                        assert(s[k] == rest[k - 1]);
                    }
                }
            },
            None => {
                assert forall|k: int| 0 <= k < s.len() implies s[k] != '+' && s[k] != '-' by {
                    if k > 0 {
                        assert(s[k] == rest[k - 1]);
                    }
                }
            },
        }
    }
}

fn find_sign(chars: &Vec<char>, from: usize) -> (index: Option<usize>)
    requires
        from <= chars@.len(),
    ensures
        match index {
            Some(i) => from <= i < chars@.len() && first_sign(chars@.skip(from as int)) == Some(
                i - from,
            ),
            None => first_sign(chars@.skip(from as int)) is None,
        },
{
    let mut i: usize = from;
    let ghost rest = chars@.skip(from as int);
    proof {
        first_sign_is_first(rest);
    }
    while i < chars.len()
        invariant
            from <= i <= chars@.len(),
            rest == chars@.skip(from as int),
            match first_sign(rest) {
                Some(k) => 0 <= k < rest.len() && (rest[k] == '+' || rest[k] == '-') && forall|
                    m: int,
                |
                    0 <= m < k ==> rest[m] != '+' && rest[m] != '-',
                None => forall|m: int| 0 <= m < rest.len() ==> rest[m] != '+' && rest[m] != '-',
            },
            forall|k: int| 0 <= k < i - from ==> rest[k] != '+' && rest[k] != '-',
        decreases chars@.len() - i,
    {
        assert(chars@[i as int] == rest[i - from]);
        if chars[i] == '+' || chars[i] == '-' {
            return Some(i);
        }
        i = i + 1;
    }
    None
}

/// The four parts of a geometry such as `1920x1080+0-240`, as they are written.
pub struct Geometry {
    pub width: Seq<char>,
    pub height: Seq<char>,
    pub x: Seq<char>,
    pub y: Seq<char>,
}

/// The parts of a word that is a geometry: a size with an `x` in it, before two numbers that
/// start with their signs.
pub open spec fn geometry(word: Seq<char>) -> Option<Geometry> {
    match first_sign(word) {
        None => None,
        Some(i) => match (text::split_at_first(word.take(i), 'x'), first_sign(word.skip(i + 1))) {
            (Some((width, height)), Some(k)) => Some(
                Geometry {
                    width,
                    height,
                    x: word.subrange(i, i + 1 + k),
                    y: word.skip(i + 1 + k),
                },
            ),
            _ => None,
        },
    }
}

/// The first geometry among some words.
pub open spec fn first_geometry(words: Seq<Seq<char>>) -> Option<Geometry>
    decreases words.len(),
{
    if words.len() == 0 {
        None
    } else if geometry(words[0]) is Some {
        geometry(words[0])
    } else {
        first_geometry(words.drop_first())
    }
}

/// The geometry of a connected display, from its line of the listing.
pub open spec fn listed_geometry(line: Seq<char>) -> Option<Geometry> {
    if text::contains(line, " connected"@) {
        first_geometry(text::words(line))
    } else {
        None
    }
}

/// A display as it is listed: `x` and `y` are the place of its corner.
#[derive(Clone, Copy, Debug, PartialEq, Eq, Structural)]
pub struct ListedDisplay {
    pub width: u32,
    pub height: u32,
    pub x: u32,
    pub y: u32,
    pub primary: bool,
}

/// The display of one line: one with a geometry made of numbers.
pub open spec fn listed_display(line: Seq<char>, readings: Readings) -> Option<ListedDisplay> {
    match listed_geometry(line) {
        None => None,
        Some(parts) => match (
            readings.single_of(parts.width),
            readings.single_of(parts.height),
            readings.single_of(parts.x),
            readings.single_of(parts.y),
        ) {
            (Some(width), Some(height), Some(x), Some(y)) => Some(
                ListedDisplay {
                    width,
                    height,
                    x,
                    y,
                    primary: text::words(line).contains("primary"@),
                },
            ),
            _ => None,
        },
    }
}

/// The displays of some lines, in order.
pub open spec fn listed_displays(lines: Seq<Seq<char>>, readings: Readings) -> Seq<ListedDisplay>
    decreases lines.len(),
{
    if lines.len() == 0 {
        Seq::empty()
    } else {
        match listed_display(lines.last(), readings) {
            Some(display) => listed_displays(lines.drop_last(), readings).push(display),
            None => listed_displays(lines.drop_last(), readings),
        }
    }
}

/// The smaller of two numbers, or the one of them that is a number.
pub open spec fn lesser32(a: u32, b: u32) -> u32 {
    if binary::is_nan32(a) || binary::below32(b, a) {
        b
    } else {
        a
    }
}

/// The least of the left edges.
pub open spec fn least_x(list: Seq<ListedDisplay>) -> u32
    decreases list.len(),
{
    if list.len() == 0 {
        INFINITY
    } else {
        lesser32(least_x(list.drop_last()), list.last().x)
    }
}

/// The least of the upper edges.
pub open spec fn least_y(list: Seq<ListedDisplay>) -> u32
    decreases list.len(),
{
    if list.len() == 0 {
        INFINITY
    } else {
        lesser32(least_y(list.drop_last()), list.last().y)
    }
}

/// The centre of a display along one axis, counted from the least edge.
pub open spec fn centre(edge: u32, least: u32, length: u32) -> u32 {
    binary::sum32(binary::difference32(edge, least), binary::quotient32(length, TWO))
}

/// A listed display in the coordinates of the driver.
pub open spec fn placed(list: Seq<ListedDisplay>, i: int) -> Display {
    let display = list[i];
    Display {
        index: (i as usize) as i32,
        label: label(i as nat, display.width, display.height, display.primary),
        width: display.width,
        height: display.height,
        x: centre(display.x, least_x(list), display.width),
        y: centre(display.y, least_y(list), display.height),
        detected: true,
        primary: display.primary,
    }
}

/// The displays that xrandr lists.
pub open spec fn xrandr_displays(listing: Seq<char>, readings: Readings) -> Seq<Display> {
    let list = listed_displays(text::lines(listing), readings);
    Seq::new(list.len(), |i: int| placed(list, i))
}

/// The parts of a geometry.
#[derive(Debug)]
pub struct GeometryText {
    pub width: String,
    pub height: String,
    pub x: String,
    pub y: String,
}

impl View for GeometryText {
    type V = Geometry;

    open spec fn view(&self) -> Geometry {
        Geometry { width: self.width@, height: self.height@, x: self.x@, y: self.y@ }
    }
}

/// The parts of a word that is a geometry.
pub fn geometry_of(word: &str) -> (parts: Option<GeometryText>)
    ensures
        match parts {
            Some(p) => geometry(word@) == Some(p@),
            None => geometry(word@) is None,
        },
{
    let chars = text::chars_of(word);
    let end: usize = chars.len();
    assert(word@.skip(0) =~= word@);
    match find_sign(&chars, 0) {
        None => None,
        Some(i) => {
            let size = text::text_between(&chars, 0, i);
            assert(size@ =~= word@.take(i as int));
            match (text::split_once(size.as_str(), 'x'), find_sign(&chars, i + 1)) {
                (Some((width, height)), Some(j)) => {
                    let x = text::text_between(&chars, i, j);
                    let y = text::text_between(&chars, j, end);
                    assert(y@ =~= word@.skip(j as int));
                    Some(GeometryText { width, height, x, y })
                },
                _ => None,
            }
        },
    }
}

/// The geometry of a connected display, from its line of the listing.
pub fn geometry_in(line: &str) -> (parts: Option<GeometryText>)
    ensures
        match parts {
            Some(p) => listed_geometry(line@) == Some(p@),
            None => listed_geometry(line@) is None,
        },
{
    if !text::has_part(line, " connected") {
        return None;
    }
    let words = text::words_of(line);
    let ghost all = text::words(line@);
    let mut i: usize = 0;
    assert(all.skip(0) =~= all);
    while i < words.len()
        invariant
            i <= words@.len(),
            all == text::texts(words@),
            all == text::words(line@),
            text::contains(line@, " connected"@),
            first_geometry(all) == first_geometry(all.skip(i as int)),
        decreases words@.len() - i,
    {
        assert(all[i as int] == words@[i as int]@);
        assert(all.skip(i as int)[0] == all[i as int]);
        assert(all.skip(i as int).drop_first() =~= all.skip(i + 1));
        let parts = geometry_of(words[i].as_str());
        if parts.is_some() {
            return parts;
        }
        i = i + 1;
    }
    None
}

/// Whether a line has the word that marks the primary display.
fn marked_primary(line: &str) -> (primary: bool)
    ensures
        primary == text::words(line@).contains("primary"@),
{
    let words = text::words_of(line);
    let ghost all = text::words(line@);
    let mut i: usize = 0;
    while i < words.len()
        invariant
            i <= words@.len(),
            all == text::texts(words@),
            all == text::words(line@),
            forall|k: int| 0 <= k < i ==> all[k] != "primary"@,
        decreases words@.len() - i,
    {
        assert(all[i as int] == words@[i as int]@);
        if text::same_text(words[i].as_str(), "primary") {
            assert(all[i as int] == "primary"@);
            return true;
        }
        i = i + 1;
    }
    false
}

/// The texts in a listing that `parse_xrandr` needs the readings of.
pub open spec fn geometry_texts(lines: Seq<Seq<char>>) -> Seq<Seq<char>>
    decreases lines.len(),
{
    if lines.len() == 0 {
        Seq::empty()
    } else {
        match listed_geometry(lines.last()) {
            Some(p) => geometry_texts(lines.drop_last()) + seq![p.width, p.height, p.x, p.y],
            None => geometry_texts(lines.drop_last()),
        }
    }
}

/// The texts in a listing that are to be read as numbers.
pub fn xrandr_numbers(listing: &str) -> (list: Vec<String>)
    ensures
        text::texts(list@) == geometry_texts(text::lines(listing@)),
{
    let lines = text::lines_of(listing);
    let ghost all = text::lines(listing@);
    let mut list: Vec<String> = Vec::new();
    let mut i: usize = 0;
    assert(text::texts(list@) =~= geometry_texts(all.take(0)));
    while i < lines.len()
        invariant
            i <= lines@.len(),
            all == text::texts(lines@),
            text::texts(list@) == geometry_texts(all.take(i as int)),
        decreases lines@.len() - i,
    {
        assert(all.take(i + 1).drop_last() =~= all.take(i as int));
        assert(all.take(i + 1).last() == lines@[i as int]@);
        let ghost before = text::texts(list@);
        match geometry_in(lines[i].as_str()) {
            Some(p) => {
                let ghost parts = p@;
                list.push(p.width);
                list.push(p.height);
                list.push(p.x);
                list.push(p.y);
                assert(text::texts(list@) =~= before + seq![
                    parts.width,
                    parts.height,
                    parts.x,
                    parts.y,
                ]);
            },
            None => {},
        }
        i = i + 1;
    }
    assert(all.take(i as int) =~= all);
    list
}

/// The display of one line.
fn display_in(line: &str, readings: &Readings) -> (display: Option<ListedDisplay>)
    ensures
        display == listed_display(line@, *readings),
{
    match geometry_in(line) {
        None => None,
        Some(parts) => {
            let width = readings.single(parts.width.as_str());
            let height = readings.single(parts.height.as_str());
            let x = readings.single(parts.x.as_str());
            let y = readings.single(parts.y.as_str());
            match (width, height, x, y) {
                (Some(width), Some(height), Some(x), Some(y)) => Some(
                    ListedDisplay { width, height, x, y, primary: marked_primary(line) },
                ),
                _ => None,
            }
        },
    }
}

fn lesser(a: u32, b: u32) -> (least: u32)
    ensures
        least == lesser32(a, b),
{
    if a % 0x8000_0000 > 0x7f80_0000 || binary::lt32(b, a) {
        b
    } else {
        a
    }
}

fn centre_of(edge: u32, least: u32, length: u32) -> (place: u32)
    ensures
        place == centre(edge, least, length),
{
    binary::add32(binary::sub32(edge, least), binary::div32(length, TWO))
}

/// The displays that xrandr lists.
pub fn parse_xrandr(listing: &str, readings: &Readings) -> (found: Vec<DisplayInfo>)
    ensures
        displays(found@) == xrandr_displays(listing@, *readings),
{
    let lines = text::lines_of(listing);
    let ghost all = text::lines(listing@);
    let mut raw: Vec<ListedDisplay> = Vec::new();
    let mut i: usize = 0;
    assert(raw@ =~= listed_displays(all.take(0), *readings));
    while i < lines.len()
        invariant
            i <= lines@.len(),
            all == text::texts(lines@),
            raw@ == listed_displays(all.take(i as int), *readings),
        decreases lines@.len() - i,
    {
        assert(all.take(i + 1).drop_last() =~= all.take(i as int));
        assert(all.take(i + 1).last() == lines@[i as int]@);
        match display_in(lines[i].as_str(), readings) {
            Some(display) => raw.push(display),
            None => {},
        }
        i = i + 1;
    }
    assert(all.take(i as int) =~= all);
    let mut min_x: u32 = INFINITY;
    let mut min_y: u32 = INFINITY;
    let mut j: usize = 0;
    while j < raw.len()
        invariant
            j <= raw@.len(),
            min_x == least_x(raw@.take(j as int)),
            min_y == least_y(raw@.take(j as int)),
        decreases raw@.len() - j,
    {
        assert(raw@.take(j + 1).drop_last() =~= raw@.take(j as int));
        min_x = lesser(min_x, raw[j].x);
        min_y = lesser(min_y, raw[j].y);
        j = j + 1;
    }
    assert(raw@.take(j as int) =~= raw@);
    let mut found: Vec<DisplayInfo> = Vec::new();
    let mut k: usize = 0;
    while k < raw.len()
        invariant
            k <= raw@.len(),
            min_x == least_x(raw@),
            min_y == least_y(raw@),
            found@.len() == k,
            forall|m: int| 0 <= m < k ==> (#[trigger] found@[m])@ == placed(raw@, m),
        decreases raw@.len() - k,
    {
        let display = raw[k];
        found.push(
            DisplayInfo {
                index: k as i32,
                label: label_text(k, display.width, display.height, display.primary),
                width: display.width,
                height: display.height,
                x: centre_of(display.x, min_x, display.width),
                y: centre_of(display.y, min_y, display.height),
                detected: true,
                primary: display.primary,
            },
        );
        k = k + 1;
    }
    assert(displays(found@) =~= xrandr_displays(listing@, *readings));
    found
}

/// The displays that were found, or the one that stands in.
pub open spec fn or_stand_in(found: Seq<Display>) -> Seq<Display> {
    if found.len() == 0 {
        seq![Display::stand_in()]
    } else {
        found
    }
}

/// The displays that were found, or the one that stands in.
pub fn or_fallback(found: Vec<DisplayInfo>) -> (list: Vec<DisplayInfo>)
    ensures
        displays(list@) == or_stand_in(displays(found@)),
{
    if found.len() == 0 {
        let mut list: Vec<DisplayInfo> = Vec::new();
        list.push(DisplayInfo::fallback());
        assert(displays(list@) =~= seq![Display::stand_in()]);
        list
    } else {
        found
    }
}

// ---- macOS ----

/// The bounds of a display on macOS, in binary64 numbers.
#[derive(Clone, Copy, Debug, PartialEq, Eq, Structural)]
pub struct MacBounds {
    pub id: u32,
    pub x: u64,
    pub y: u64,
    pub width: u64,
    pub height: u64,
}

pub open spec fn lesser64(a: u64, b: u64) -> u64 {
    if binary::is_nan64(a) || binary::below64(b, a) {
        b
    } else {
        a
    }
}

pub open spec fn least_mac_x(list: Seq<MacBounds>) -> u64
    decreases list.len(),
{
    if list.len() == 0 {
        INFINITY64
    } else {
        lesser64(least_mac_x(list.drop_last()), list.last().x)
    }
}

pub open spec fn least_mac_y(list: Seq<MacBounds>) -> u64
    decreases list.len(),
{
    if list.len() == 0 {
        INFINITY64
    } else {
        lesser64(least_mac_y(list.drop_last()), list.last().y)
    }
}

/// The display at place `i` of the system's list, where it has a width and a height.
pub open spec fn mac_display(list: Seq<MacBounds>, primary: u32, i: int) -> Option<Display> {
    let bounds = list[i];
    let width = binary::narrowed(bounds.width);
    let height = binary::narrowed(bounds.height);
    if binary::below32(0, width) && binary::below32(0, height) {
        Some(
            Display {
                index: (i as usize) as i32,
                label: label(i as nat, width, height, bounds.id == primary),
                width,
                height,
                x: binary::sum32(
                    binary::narrowed(binary::difference64(bounds.x, least_mac_x(list))),
                    binary::quotient32(width, TWO),
                ),
                y: binary::sum32(
                    binary::narrowed(binary::difference64(bounds.y, least_mac_y(list))),
                    binary::quotient32(height, TWO),
                ),
                detected: true,
                primary: bounds.id == primary,
            },
        )
    } else {
        None
    }
}

/// The displays among the first `n` of the system's list.
pub open spec fn mac_displays(list: Seq<MacBounds>, primary: u32, n: nat) -> Seq<Display>
    decreases n,
{
    if n == 0 {
        Seq::empty()
    } else {
        let before = mac_displays(list, primary, (n - 1) as nat);
        match mac_display(list, primary, n - 1) {
            Some(display) => before.push(display),
            None => before,
        }
    }
}

fn lesser_of_doubles(a: u64, b: u64) -> (least: u64)
    ensures
        least == lesser64(a, b),
{
    if a % 0x8000_0000_0000_0000 > 0x7ff0_0000_0000_0000 || binary::lt64(b, a) {
        b
    } else {
        a
    }
}

/// The displays of macOS, in the coordinates of the driver.
pub fn arrange_mac(list: &Vec<MacBounds>, primary: u32) -> (found: Vec<DisplayInfo>)
    ensures
        displays(found@) == or_stand_in(mac_displays(list@, primary, list@.len())),
{
    let mut min_x: u64 = INFINITY64;
    let mut min_y: u64 = INFINITY64;
    let mut j: usize = 0;
    while j < list.len()
        invariant
            j <= list@.len(),
            min_x == least_mac_x(list@.take(j as int)),
            min_y == least_mac_y(list@.take(j as int)),
        decreases list@.len() - j,
    {
        assert(list@.take(j + 1).drop_last() =~= list@.take(j as int));
        min_x = lesser_of_doubles(min_x, list[j].x);
        min_y = lesser_of_doubles(min_y, list[j].y);
        j = j + 1;
    }
    assert(list@.take(j as int) =~= list@);
    let mut found: Vec<DisplayInfo> = Vec::new();
    let mut k: usize = 0;
    assert(displays(found@) =~= mac_displays(list@, primary, 0));
    while k < list.len()
        invariant
            k <= list@.len(),
            min_x == least_mac_x(list@),
            min_y == least_mac_y(list@),
            displays(found@) == mac_displays(list@, primary, k as nat),
        decreases list@.len() - k,
    {
        let bounds = list[k];
        let width: u32 = binary::narrow(bounds.width);
        let height: u32 = binary::narrow(bounds.height);
        if binary::lt32(0, width) && binary::lt32(0, height) {
            let ghost before = found@;
            let display = DisplayInfo {
                index: k as i32,
                label: label_text(k, width, height, bounds.id == primary),
                width,
                height,
                x: binary::add32(
                    binary::narrow(binary::sub64(bounds.x, min_x)),
                    binary::div32(width, TWO),
                ),
                y: binary::add32(
                    binary::narrow(binary::sub64(bounds.y, min_y)),
                    binary::div32(height, TWO),
                ),
                detected: true,
                primary: bounds.id == primary,
            };
            found.push(display);
            assert(displays(found@) =~= displays(before).push(display@));
        }
        k = k + 1;
    }
    or_fallback(found)
}

// ---- Windows ----

/// A rectangle of the Windows desktop.
#[derive(Clone, Copy, Debug, PartialEq, Eq, Structural)]
pub struct WindowsRect {
    pub left: i32,
    pub top: i32,
    pub right: i32,
    pub bottom: i32,
}

/// A monitor of the Windows desktop.
#[derive(Clone, Copy, Debug, PartialEq, Eq, Structural)]
pub struct WindowsDisplayBounds {
    pub rect: WindowsRect,
    pub primary: bool,
}

/// A monitor as Windows describes it, where it has a width and a height.
pub fn windows_monitor(rect: WindowsRect, flags: u32) -> (monitor: Option<WindowsDisplayBounds>)
    ensures
        monitor == if rect.right > rect.left && rect.bottom > rect.top {
            Some(WindowsDisplayBounds { rect, primary: flags % 2 == 1 })
        } else {
            None
        },
{
    if rect.right > rect.left && rect.bottom > rect.top {
        Some(WindowsDisplayBounds { rect, primary: flags % 2 == 1 })
    } else {
        None
    }
}

/// The least left edge.
pub open spec fn least_left(list: Seq<WindowsDisplayBounds>) -> int
    decreases list.len(),
{
    if list.len() == 0 {
        0
    } else if list.len() == 1 {
        list[0].rect.left as int
    } else {
        let before = least_left(list.drop_last());
        if list.last().rect.left < before {
            list.last().rect.left as int
        } else {
            before
        }
    }
}

/// The least upper edge.
pub open spec fn least_top(list: Seq<WindowsDisplayBounds>) -> int
    decreases list.len(),
{
    if list.len() == 0 {
        0
    } else if list.len() == 1 {
        list[0].rect.top as int
    } else {
        let before = least_top(list.drop_last());
        if list.last().rect.top < before {
            list.last().rect.top as int
        } else {
            before
        }
    }
}

/// The place of the first primary monitor from `from` on.
pub open spec fn first_primary(list: Seq<WindowsDisplayBounds>, from: int) -> Option<int>
    decreases list.len() - from,
{
    if from < 0 || from >= list.len() {
        None
    } else if list[from].primary {
        Some(from)
    } else {
        first_primary(list, from + 1)
    }
}

/// How far the primary monitor is from the least edges. The driver counts from there.
pub open spec fn primary_offset(list: Seq<WindowsDisplayBounds>) -> (int, int) {
    match first_primary(list, 0) {
        Some(i) => (
            list[i].rect.left - least_left(list),
            list[i].rect.top - least_top(list),
        ),
        None => (0, 0),
    }
}

/// A monitor in the coordinates of the driver.
pub open spec fn windows_display(list: Seq<WindowsDisplayBounds>, i: int) -> Display {
    let rect = list[i].rect;
    let width = binary::integer32(rect.right - rect.left);
    let height = binary::integer32(rect.bottom - rect.top);
    let offset = primary_offset(list);
    Display {
        index: (i as usize) as i32,
        label: label(i as nat, width, height, list[i].primary),
        width,
        height,
        x: binary::sum32(
            binary::integer32(rect.left - least_left(list) + offset.0),
            binary::quotient32(width, TWO),
        ),
        y: binary::sum32(
            binary::integer32(rect.top - least_top(list) + offset.1),
            binary::quotient32(height, TWO),
        ),
        detected: true,
        primary: list[i].primary,
    }
}

/// The monitors of Windows, in the coordinates of the driver.
pub open spec fn windows_displays(list: Seq<WindowsDisplayBounds>) -> Seq<Display> {
    Seq::new(list.len(), |i: int| windows_display(list, i))
}

/// The least edges are edges.
proof fn least_is_an_edge(list: Seq<WindowsDisplayBounds>)
    ensures
        i32::MIN <= least_left(list) <= i32::MAX,
        i32::MIN <= least_top(list) <= i32::MAX,
    decreases list.len(),
{
    if list.len() > 1 {
        least_is_an_edge(list.drop_last());
    }
}

/// The monitors of Windows, in the coordinates of the driver.
pub fn arrange_windows(list: &Vec<WindowsDisplayBounds>) -> (found: Vec<DisplayInfo>)
    ensures
        displays(found@) == or_stand_in(windows_displays(list@)),
{
    let mut min_x: i64 = 0;
    let mut min_y: i64 = 0;
    let mut j: usize = 0;
    while j < list.len()
        invariant
            j <= list@.len(),
            min_x == least_left(list@.take(j as int)),
            min_y == least_top(list@.take(j as int)),
        decreases list@.len() - j,
    {
        assert(list@.take(j + 1).drop_last() =~= list@.take(j as int));
        let rect = list[j].rect;
        if j == 0 || (rect.left as i64) < min_x {
            min_x = rect.left as i64;
        }
        if j == 0 || (rect.top as i64) < min_y {
            min_y = rect.top as i64;
        }
        j = j + 1;
    }
    assert(list@.take(j as int) =~= list@);
    proof {
        least_is_an_edge(list@);
    }
    let mut offset_x: i64 = 0;
    let mut offset_y: i64 = 0;
    let mut p: usize = 0;
    while p < list.len() && !list[p].primary
        invariant
            p <= list@.len(),
            first_primary(list@, 0) == first_primary(list@, p as int),
        decreases list@.len() - p,
    {
        p = p + 1;
    }
    if p < list.len() {
        offset_x = list[p].rect.left as i64 - min_x;
        offset_y = list[p].rect.top as i64 - min_y;
    }
    assert(primary_offset(list@) == (offset_x as int, offset_y as int));
    let mut found: Vec<DisplayInfo> = Vec::new();
    let mut k: usize = 0;
    while k < list.len()
        invariant
            k <= list@.len(),
            min_x == least_left(list@),
            min_y == least_top(list@),
            i32::MIN <= min_x <= i32::MAX,
            i32::MIN <= min_y <= i32::MAX,
            -0x1_0000_0000 <= offset_x <= 0x1_0000_0000,
            -0x1_0000_0000 <= offset_y <= 0x1_0000_0000,
            primary_offset(list@) == (offset_x as int, offset_y as int),
            found@.len() == k,
            forall|m: int| 0 <= m < k ==> (#[trigger] found@[m])@ == windows_display(list@, m),
        decreases list@.len() - k,
    {
        let rect = list[k].rect;
        let width: u32 = binary::from_integer32(rect.right as i64 - rect.left as i64);
        let height: u32 = binary::from_integer32(rect.bottom as i64 - rect.top as i64);
        found.push(
            DisplayInfo {
                index: k as i32,
                label: label_text(k, width, height, list[k].primary),
                width,
                height,
                x: binary::add32(
                    binary::from_integer32(rect.left as i64 - min_x + offset_x),
                    binary::div32(width, TWO),
                ),
                y: binary::add32(
                    binary::from_integer32(rect.top as i64 - min_y + offset_y),
                    binary::div32(height, TWO),
                ),
                detected: true,
                primary: list[k].primary,
            },
        );
        k = k + 1;
    }
    assert(displays(found@) =~= windows_displays(list@));
    or_fallback(found)
}

// ---- the selected display ----

/// Two numbers differ by less than a limit, in binary32 arithmetic.
pub open spec fn within(a: u32, b: u32, limit: u32) -> bool {
    binary::below32(binary::absolute32(binary::difference32(a, b)), limit)
}

/// An area of the driver covers this display.
pub open spec fn covers(display: Display, width: u32, height: u32, x: u32, y: u32) -> bool {
    &&& within(display.width, width, TWO)
    &&& within(display.height, height, TWO)
    &&& within(display.x, x, THREE)
    &&& within(display.y, y, THREE)
}

/// The index of the first display that the area covers, from place `from` on.
pub open spec fn covered(
    list: Seq<Display>,
    width: u32,
    height: u32,
    x: u32,
    y: u32,
    from: int,
) -> i32
    decreases list.len() - from,
{
    if from < 0 || from >= list.len() {
        (-1) as i32
    } else if covers(list[from], width, height, x, y) {
        list[from].index
    } else {
        covered(list, width, height, x, y, from + 1)
    }
}

fn near(a: u32, b: u32, limit: u32) -> (is: bool)
    ensures
        is == within(a, b, limit),
{
    binary::lt32(binary::abs32(binary::sub32(a, b)), limit)
}

/// The index of the display that an area of the driver covers, or -1.
pub fn selected_display_index(
    list: &Vec<DisplayInfo>,
    width: u32,
    height: u32,
    x: u32,
    y: u32,
) -> (index: i32)
    ensures
        index == covered(displays(list@), width, height, x, y, 0),
{
    let ghost all = displays(list@);
    let mut i: usize = 0;
    while i < list.len()
        invariant
            i <= list@.len(),
            all == displays(list@),
            covered(all, width, height, x, y, 0) == covered(all, width, height, x, y, i as int),
        decreases list@.len() - i,
    {
        assert(all[i as int] == list@[i as int]@);
        if near(list[i].width, width, TWO) && near(list[i].height, height, TWO) && near(
            list[i].x,
            x,
            THREE,
        ) && near(list[i].y, y, THREE) {
            return list[i].index;
        }
        i = i + 1;
    }
    -1
}

// ---- laws ----

/// A finite number is within every positive limit of itself.
proof fn close_to_itself(a: u32, limit: u32)
    requires
        binary::is_finite32(a),
        limit == TWO || limit == THREE,
    ensures
        within(a, a, limit),
{
    reveal(binary::difference32);
}

/// A display that a tablet is mapped to is found again: the area that covers exactly this
/// display covers it, and the display that is found is the first one that it covers.
pub proof fn mapped_display_is_found(list: Seq<Display>, i: int, from: int)
    requires
        0 <= from <= i < list.len(),
        binary::is_finite32(list[i].width),
        binary::is_finite32(list[i].height),
        binary::is_finite32(list[i].x),
        binary::is_finite32(list[i].y),
    ensures
        ({
            let d = list[i];
            exists|k: int|
                from <= k <= i && #[trigger] covers(list[k], d.width, d.height, d.x, d.y)
                    && covered(list, d.width, d.height, d.x, d.y, from) == list[k].index
                    && forall|j: int|
                    from <= j < k ==> !#[trigger] covers(list[j], d.width, d.height, d.x, d.y)
        }),
    decreases i - from,
{
    let d = list[i];
    close_to_itself(d.width, TWO);
    close_to_itself(d.height, TWO);
    close_to_itself(d.x, THREE);
    close_to_itself(d.y, THREE);
    if !covers(list[from], d.width, d.height, d.x, d.y) {
        mapped_display_is_found(list, i, from + 1);
        let k = choose|k: int|
            from + 1 <= k <= i && #[trigger] covers(list[k], d.width, d.height, d.x, d.y)
                && covered(list, d.width, d.height, d.x, d.y, from + 1) == list[k].index
                && forall|j: int|
                from + 1 <= j < k ==> !#[trigger] covers(list[j], d.width, d.height, d.x, d.y);
        assert(covers(list[k], d.width, d.height, d.x, d.y));
    }
}

/// There is always a display to pick, and where the system named one, only such are listed.
pub proof fn there_is_always_a_display(found: Seq<Display>)
    ensures
        or_stand_in(found).len() > 0,
        found.len() > 0 ==> or_stand_in(found) == found,
        found.len() == 0 ==> !or_stand_in(found)[0].detected,
{
}

// ---- where displays are placed ----

/// The number is whole, and no larger than a desktop.
pub open spec fn is_whole(bits: u32) -> bool {
    &&& binary::is_finite32(bits)
    &&& binary::value32(bits) % binary::one() == 0
    &&& -0x10_0000 * binary::one() <= binary::value32(bits) <= 0x10_0000 * binary::one()
}

/// Twice the edge of something that has its centre and its length here.
pub open spec fn edge_twice(centre: u32, length: u32) -> int {
    2 * binary::value32(centre) - binary::value32(length)
}

proof fn lesser_is_least(a: u32, b: u32)
    requires
        binary::is_finite32(b),
        binary::is_finite32(a) || a == INFINITY,
    ensures
        binary::is_finite32(lesser32(a, b)),
        lesser32(a, b) == b || lesser32(a, b) == a,
        binary::value32(lesser32(a, b)) <= binary::value32(b),
        binary::is_finite32(a) ==> binary::value32(lesser32(a, b)) <= binary::value32(a),
{
    if binary::is_finite32(a) {
        binary::order_is_by_value32(b, a);
    } else {
        assert(binary::below32(b, INFINITY));
    }
}

/// The edges that places are counted from are the least ones: each is the edge of a listed
/// display, and not above that of any.
pub proof fn least_edges_are_least(list: Seq<ListedDisplay>)
    requires
        list.len() > 0,
        forall|i: int|
            0 <= i < list.len() ==> binary::is_finite32((#[trigger] list[i]).x)
                && binary::is_finite32(list[i].y),
    ensures
        exists|i: int| 0 <= i < list.len() && least_x(list) == (#[trigger] list[i]).x,
        exists|i: int| 0 <= i < list.len() && least_y(list) == (#[trigger] list[i]).y,
        forall|j: int|
            0 <= j < list.len() ==> binary::value32(least_x(list)) <= binary::value32(
                (#[trigger] list[j]).x,
            ) && binary::value32(least_y(list)) <= binary::value32(list[j].y),
    decreases list.len(),
{
    let last = list.last();
    let before = list.drop_last();
    assert(list[list.len() - 1] == last);
    if before.len() > 0 {
        assert forall|i: int| 0 <= i < before.len() implies binary::is_finite32(
            (#[trigger] before[i]).x,
        ) && binary::is_finite32(before[i].y) by {
            assert(before[i] == list[i]);
        }
        least_edges_are_least(before);
        let i = choose|i: int| 0 <= i < before.len() && least_x(before) == (#[trigger] before[i]).x;
        let k = choose|k: int| 0 <= k < before.len() && least_y(before) == (#[trigger] before[k]).y;
        assert(list[i] == before[i] && list[k] == before[k]);
        lesser_is_least(least_x(before), last.x);
        lesser_is_least(least_y(before), last.y);
        assert forall|j: int| 0 <= j < list.len() implies binary::value32(least_x(list))
            <= binary::value32((#[trigger] list[j]).x) && binary::value32(least_y(list))
            <= binary::value32(list[j].y) by {
            if j < before.len() {
                assert(before[j] == list[j]);
            }
        }
    } else {
        lesser_is_least(INFINITY, last.x);
        lesser_is_least(INFINITY, last.y);
    }
}

proof fn two_is_two()
    ensures
        binary::is_finite32(TWO),
        binary::exact32(TWO).magnitude() == 2 * binary::one(),
        !binary::negative32(TWO),
        binary::value32(TWO) == 2 * binary::one(),
        binary::is_finite32(THREE),
        binary::value32(THREE) == 3 * binary::one(),
        binary::one() == 2 * power2::pow2(1073),
        power2::pow2(1074 + 24) == binary::one() * 0x100_0000,
        power2::pow2(1073 + 24) == binary::one() * 0x80_0000,
        binary::one() > 0,
{
    power2::lemma_pow2_pos(1074);
    power2::lemma_pow2_unfold(1074);
    power2::lemma_pow2_adds(1074, 24);
    power2::lemma_pow2_adds(1074, 23);
    assert(power2::pow2(52) == 0x10_0000_0000_0000 && power2::pow2(24) == 0x100_0000
        && power2::pow2(23) == 0x80_0000 && power2::pow2(51) == 0x8_0000_0000_0000) by {
        power2::lemma2_to64();
        power2::lemma2_to64_rest();
    }
    let two = binary::exact32(TWO);
    assert(two.significand == 0x10_0000_0000_0000 && two.shift == 1023);
    power2::lemma_pow2_adds(52, 1023);
    power2::lemma_pow2_unfold(1075);
    let three = binary::exact32(THREE);
    assert(three.significand == 3 * 0x8_0000_0000_0000 && three.shift == 1023);
    power2::lemma_pow2_adds(51, 1023);
    let z = power2::pow2(1023) as int;
    assert((3 * 0x8_0000_0000_0000) * z == 3 * (0x8_0000_0000_0000 * z)) by (nonlinear_arith);
}

/// Half of a whole length is exact.
proof fn half_of_a_length(length: u32)
    requires
        is_whole(length),
        binary::value32(length) >= 0,
    ensures
        binary::is_finite32(binary::quotient32(length, TWO)),
        2 * binary::value32(binary::quotient32(length, TWO)) == binary::value32(length),
{
    two_is_two();
    binary::signs_are_values32(length);
    let v = binary::value32(length);
    let o = binary::one();
    let half = power2::pow2(1073);
    let magnitude = binary::exact32(length).magnitude();
    assert(magnitude == v);
    vstd::arithmetic::div_mod::lemma_fundamental_div_mod(v, o);
    let q = v / o;
    let m = q * half;
    assert(v == 2 * m) by (nonlinear_arith)
        requires
            v == o * q,
            o == 2 * half,
            m == q * half,
    ;
    vstd::arithmetic::div_mod::lemma_fundamental_div_mod_converse(m, half as int, q, 0);
    assert(m >= 0);
    binary::quotients_are_exact32(length, TWO, m as nat, 2, 1073);
    binary::signs_are_values32(binary::quotient32(length, TWO));
}

/// A whole edge and a whole length give an exact centre.
proof fn centres_are_exact(edge: u32, least: u32, length: u32)
    requires
        is_whole(edge),
        is_whole(least),
        is_whole(length),
        binary::value32(length) >= 0,
    ensures
        binary::is_finite32(centre(edge, least, length)),
        edge_twice(centre(edge, least, length), length) == 2 * (binary::value32(edge)
            - binary::value32(least)),
{
    two_is_two();
    let o = binary::one();
    let half = power2::pow2(1073) as int;
    let a = binary::value32(edge);
    let b = binary::value32(least);
    binary::steps_add_up(a, b, o);
    binary::differences_are_exact32(edge, least, 1074);
    let d = binary::difference32(edge, least);
    half_of_a_length(length);
    let h = binary::quotient32(length, TWO);
    binary::ones_are_steps(a - b, 1073);
    binary::ones_are_steps(binary::value32(length), 1073);
    let v = binary::value32(h);
    assert(v % half == 0) by {
        let n = binary::value32(length);
        vstd::arithmetic::div_mod::lemma_fundamental_div_mod(n, o);
        let q = n / o;
        assert(v == q * half) by (nonlinear_arith)
            requires
                2 * v == n,
                n == o * q,
                o == 2 * half,
        ;
        vstd::arithmetic::div_mod::lemma_fundamental_div_mod_converse(v, half, q, 0);
    }
    assert((a - b) % half == 0) by {
        vstd::arithmetic::div_mod::lemma_fundamental_div_mod(a - b, o);
        let q = (a - b) / o;
        assert(a - b == (2 * q) * half) by (nonlinear_arith)
            requires
                a - b == o * q,
                o == 2 * half,
        ;
        vstd::arithmetic::div_mod::lemma_fundamental_div_mod_converse(a - b, half, 2 * q, 0);
    }
    binary::steps_add_up(a - b, v, half);
    binary::sums_are_exact32(d, h, 1073);
}

/// Listed displays of whole sizes and places are placed so that none has its left or upper edge
/// below zero and some display has it there, and so that they stand to each other as they are
/// listed. Everything else of them is as it is listed, and they are numbered in order.
pub proof fn listed_displays_are_placed(list: Seq<ListedDisplay>)
    requires
        list.len() > 0,
        forall|i: int|
            0 <= i < list.len() ==> is_whole((#[trigger] list[i]).x) && is_whole(list[i].y)
                && is_whole(list[i].width) && is_whole(list[i].height) && binary::value32(
                list[i].width,
            ) >= 0 && binary::value32(list[i].height) >= 0,
    ensures
        forall|i: int|
            0 <= i < list.len() ==> {
                let d = #[trigger] placed(list, i);
                &&& edge_twice(d.x, d.width) >= 0
                &&& edge_twice(d.y, d.height) >= 0
                &&& d.width == list[i].width
                &&& d.height == list[i].height
                &&& d.primary == list[i].primary
                &&& d.detected
                &&& i <= i32::MAX ==> d.index == i
            },
        exists|i: int|
            0 <= i < list.len() && edge_twice(
                (#[trigger] placed(list, i)).x,
                placed(list, i).width,
            ) == 0,
        exists|i: int|
            0 <= i < list.len() && edge_twice(
                (#[trigger] placed(list, i)).y,
                placed(list, i).height,
            ) == 0,
        forall|i: int, j: int|
            0 <= i < list.len() && 0 <= j < list.len() ==> {
                let d = #[trigger] placed(list, i);
                let e = #[trigger] placed(list, j);
                &&& edge_twice(d.x, d.width) - edge_twice(e.x, e.width) == 2 * (binary::value32(
                    list[i].x,
                ) - binary::value32(list[j].x))
                &&& edge_twice(d.y, d.height) - edge_twice(e.y, e.height) == 2 * (binary::value32(
                    list[i].y,
                ) - binary::value32(list[j].y))
            },
{
    least_edges_are_least(list);
    let p = choose|i: int| 0 <= i < list.len() && least_x(list) == (#[trigger] list[i]).x;
    let q = choose|i: int| 0 <= i < list.len() && least_y(list) == (#[trigger] list[i]).y;
    assert(is_whole(list[p].x) && is_whole(list[q].y));
    assert forall|i: int| 0 <= i < list.len() implies {
        let d = #[trigger] placed(list, i);
        &&& edge_twice(d.x, d.width) == 2 * (binary::value32(list[i].x) - binary::value32(
            least_x(list),
        ))
        &&& edge_twice(d.y, d.height) == 2 * (binary::value32(list[i].y) - binary::value32(
            least_y(list),
        ))
        &&& binary::value32(least_x(list)) <= binary::value32(list[i].x)
        &&& binary::value32(least_y(list)) <= binary::value32(list[i].y)
    } by {
        assert(is_whole(list[i].x));
        centres_are_exact(list[i].x, least_x(list), list[i].width);
        centres_are_exact(list[i].y, least_y(list), list[i].height);
    }
    assert(edge_twice(placed(list, p).x, placed(list, p).width) == 0);
    assert(edge_twice(placed(list, q).y, placed(list, q).height) == 0);
}

/// Every display that is listed is found, in the order of the listing.
pub proof fn found_displays_are_those_listed(listing: Seq<char>, readings: Readings)
    ensures
        ({
            let list = listed_displays(text::lines(listing), readings);
            let found = xrandr_displays(listing, readings);
            found.len() == list.len() && forall|i: int|
                0 <= i < list.len() ==> #[trigger] found[i] == placed(list, i)
        }),
{
}

/// The displays of a listing are those of its lines, one after the other: each line gives the one
/// that it describes, or none.
pub proof fn lines_are_listed_in_order(
    first: Seq<Seq<char>>,
    second: Seq<Seq<char>>,
    readings: Readings,
)
    ensures
        listed_displays(first + second, readings) == listed_displays(first, readings)
            + listed_displays(second, readings),
        forall|line: Seq<char>|
            #![trigger listed_display(line, readings)]
            listed_displays(seq![line], readings) == match listed_display(line, readings) {
                Some(display) => seq![display],
                None => Seq::empty(),
            },
    decreases second.len(),
{
    let all = first + second;
    if second.len() == 0 {
        assert(all =~= first);
        assert(listed_displays(first, readings) + listed_displays(second, readings)
            =~= listed_displays(first, readings));
    } else {
        lines_are_listed_in_order(first, second.drop_last(), readings);
        assert(all.drop_last() =~= first + second.drop_last());
        assert(all.last() == second.last());
        match listed_display(second.last(), readings) {
            Some(display) => {
                assert(listed_displays(all, readings) =~= listed_displays(first, readings)
                    + listed_displays(second, readings));
            },
            None => {},
        }
    }
    assert forall|line: Seq<char>| #![trigger listed_display(line, readings)] listed_displays(
        seq![line],
        readings,
    ) == match listed_display(line, readings) {
        Some(display) => seq![display],
        None => Seq::empty(),
    } by {
        let one = seq![line];
        assert(one.drop_last() =~= Seq::<Seq<char>>::empty());
        assert(one.last() == line);
        assert(listed_displays(one.drop_last(), readings) =~= Seq::<ListedDisplay>::empty());
        match listed_display(line, readings) {
            Some(display) => {
                assert(listed_displays(one, readings) =~= seq![display]);
            },
            None => {},
        }
    }
}

/// The text has no plus or minus sign.
pub open spec fn unsigned(s: Seq<char>) -> bool {
    forall|k: int| 0 <= k < s.len() ==> s[k] != '+' && s[k] != '-'
}

/// The parts of a geometry: a width without an `x`, a height, and two numbers that start with the
/// only signs in it.
pub open spec fn well_parted(g: Geometry) -> bool {
    &&& unsigned(g.width)
    &&& forall|k: int| 0 <= k < g.width.len() ==> g.width[k] != 'x'
    &&& unsigned(g.height)
    &&& g.x.len() > 0 && (g.x[0] == '+' || g.x[0] == '-') && unsigned(g.x.skip(1))
    &&& g.y.len() > 0 && (g.y[0] == '+' || g.y[0] == '-')
}

/// A word such as `1920x1080+0-240` is taken apart into the parts that it is made of, and only
/// such words are.
pub proof fn geometries_are_taken_apart(word: Seq<char>, g: Geometry)
    ensures
        geometry(word) == Some(g) ==> well_parted(g) && word == g.width + seq!['x'] + g.height + g.x
            + g.y,
        well_parted(g) && word == g.width + seq!['x'] + g.height + g.x + g.y ==> geometry(word)
            == Some(g),
{
    if geometry(word) == Some(g) {
        first_sign_is_first(word);
        let i = first_sign(word)->0;
        let rest = word.skip(i + 1);
        first_sign_is_first(rest);
        let k = first_sign(rest)->0;
        let size = word.take(i);
        text::index_of_is_first(size, 'x');
        assert forall|n: int| 0 <= n < g.width.len() implies g.width[n] != '+' && g.width[n] != '-'
            && g.width[n] != 'x' by {
            assert(g.width[n] == word[n]);
        }
        let at = text::index_of(size, 'x')->0;
        assert forall|n: int| 0 <= n < g.height.len() implies g.height[n] != '+' && g.height[n]
            != '-' by {
            assert(g.height[n] == word[at + 1 + n]);
        }
        assert forall|n: int| 0 <= n < g.x.skip(1).len() implies g.x.skip(1)[n] != '+' && g.x.skip(
            1,
        )[n] != '-' by {
            assert(g.x.skip(1)[n] == rest[n]);
        }
        assert(g.y[0] == rest[k]);
        assert(word =~= g.width + seq!['x'] + g.height + g.x + g.y);
    }
    if well_parted(g) && word == g.width + seq!['x'] + g.height + g.x + g.y {
        let size = g.width + seq!['x'] + g.height;
        let i = size.len() as int;
        assert(word.take(i) =~= size);
        assert forall|n: int| 0 <= n < i implies word[n] != '+' && word[n] != '-' by {
            assert(word[n] == size[n]);
            if n < g.width.len() {
                assert(size[n] == g.width[n]);
            } else if n > g.width.len() {
                assert(size[n] == g.height[n - g.width.len() - 1]);
            }
        }
        assert(word[i] == g.x[0]);
        sign_is_found(word, i);
        let rest = word.skip(i + 1);
        let k = g.x.len() - 1;
        assert forall|n: int| 0 <= n < k implies rest[n] != '+' && rest[n] != '-' by {
            assert(rest[n] == g.x.skip(1)[n]);
        }
        assert(rest[k] == g.y[0]);
        sign_is_found(rest, k);
        assert forall|n: int| 0 <= n < g.width.len() implies size[n] != 'x' by {
            assert(size[n] == g.width[n]);
        }
        assert(size[g.width.len() as int] == 'x');
        text::first_is_index_of(size, 'x', g.width.len() as int);
        assert(size.take(g.width.len() as int) =~= g.width);
        assert(size.skip(g.width.len() as int + 1) =~= g.height);
        assert(word.subrange(i, i + 1 + k) =~= g.x);
        assert(word.skip(i + 1 + k) =~= g.y);
    }
}

/// The first sign is where no sign stands before it.
proof fn sign_is_found(s: Seq<char>, i: int)
    requires
        0 <= i < s.len(),
        s[i] == '+' || s[i] == '-',
        forall|k: int| 0 <= k < i ==> s[k] != '+' && s[k] != '-',
    ensures
        first_sign(s) == Some(i),
{
    first_sign_is_first(s);
}

/// A line describes a display where it says that one is connected and its first geometry is made
/// of numbers. Those numbers are the width, the height and the place, and the display is the
/// primary one where the line has that word.
pub proof fn a_line_describes_its_display(line: Seq<char>, readings: Readings, n: int)
    requires
        0 <= n < text::words(line).len(),
        geometry(text::words(line)[n]) is Some,
        forall|k: int| 0 <= k < n ==> geometry(#[trigger] text::words(line)[k]) is None,
    ensures
        ({
            let g = geometry(text::words(line)[n])->0;
            let known = readings.single_of(g.width) is Some && readings.single_of(g.height) is Some
                && readings.single_of(g.x) is Some && readings.single_of(g.y) is Some;
            &&& listed_display(line, readings) is Some <==> known && says_connected(line)
            &&& listed_display(line, readings) matches Some(d) ==> Some(d.width)
                == readings.single_of(g.width) && Some(d.height) == readings.single_of(g.height)
                && Some(d.x) == readings.single_of(g.x) && Some(d.y) == readings.single_of(g.y)
                && d.primary == exists|k: int|
                0 <= k < text::words(line).len() && #[trigger] text::words(line)[k] == "primary"@
        }),
{
    let words = text::words(line);
    first_geometry_is_found(words, n);
    connected_is_said(line);
    if words.contains("primary"@) {
        let k = choose|k: int| 0 <= k < words.len() && words[k] == "primary"@;
        assert(words[k] == "primary"@);
    }
}

/// A line has the word ` connected` in it, with the space before it.
pub open spec fn says_connected(line: Seq<char>) -> bool {
    exists|i: int, n: int|
        0 <= i <= n <= line.len() && #[trigger] line.subrange(i, n) == " connected"@
}

proof fn connected_is_said(line: Seq<char>)
    ensures
        says_connected(line) == text::contains(line, " connected"@),
{
    reveal_strlit(" connected");
    if text::contains(line, " connected"@) {
        let i = choose|i: int| #[trigger] text::stands_at(line, " connected"@, i);
        assert(line.subrange(i, i + 10) == " connected"@);
    }
    if says_connected(line) {
        let (i, n): (int, int) = choose|i: int, n: int|
            0 <= i <= n <= line.len() && #[trigger] line.subrange(i, n) == " connected"@;
        assert(text::stands_at(line, " connected"@, i));
    }
}

proof fn first_geometry_is_found(words: Seq<Seq<char>>, n: int)
    requires
        0 <= n < words.len(),
        geometry(words[n]) is Some,
        forall|k: int| 0 <= k < n ==> geometry(#[trigger] words[k]) is None,
    ensures
        first_geometry(words) == geometry(words[n]),
    decreases n,
{
    if n > 0 {
        let rest = words.drop_first();
        assert(rest[n - 1] == words[n]);
        assert(geometry(words[0]) is None);
        assert forall|k: int| 0 <= k < n - 1 implies geometry(#[trigger] rest[k]) is None by {
            assert(rest[k] == words[k + 1]);
        }
        first_geometry_is_found(rest, n - 1);
    }
}

/// A line without a geometry, or that says of no display that it is connected, describes none.
pub proof fn other_lines_describe_none(line: Seq<char>, readings: Readings)
    requires
        !says_connected(line) || forall|k: int|
            0 <= k < text::words(line).len() ==> geometry(#[trigger] text::words(line)[k]) is None,
    ensures
        listed_display(line, readings) is None,
{
    connected_is_said(line);
    if says_connected(line) {
        no_geometry_is_found(text::words(line));
    }
}

proof fn no_geometry_is_found(words: Seq<Seq<char>>)
    requires
        forall|k: int| 0 <= k < words.len() ==> geometry(#[trigger] words[k]) is None,
    ensures
        first_geometry(words) is None,
    decreases words.len(),
{
    if words.len() > 0 {
        let rest = words.drop_first();
        assert(geometry(words[0]) is None);
        assert forall|k: int| 0 <= k < rest.len() implies geometry(#[trigger] rest[k]) is None by {
            assert(rest[k] == words[k + 1]);
        }
        no_geometry_is_found(rest);
    }
}

// ---- the displays of macOS and Windows ----

proof fn lesser_is_least64(a: u64, b: u64)
    requires
        binary::is_finite64(b),
        binary::is_finite64(a) || a == INFINITY64,
    ensures
        binary::is_finite64(lesser64(a, b)),
        lesser64(a, b) == b || lesser64(a, b) == a,
        binary::value64(lesser64(a, b)) <= binary::value64(b),
        binary::is_finite64(a) ==> binary::value64(lesser64(a, b)) <= binary::value64(a),
{
    if binary::is_finite64(a) {
        binary::order_is_by_value64(b, a);
    } else {
        assert(binary::below64(b, INFINITY64));
    }
}

/// The edges that places are counted from on macOS are the least ones.
pub proof fn least_mac_edges_are_least(list: Seq<MacBounds>)
    requires
        list.len() > 0,
        forall|i: int|
            0 <= i < list.len() ==> binary::is_finite64((#[trigger] list[i]).x)
                && binary::is_finite64(list[i].y),
    ensures
        exists|i: int| 0 <= i < list.len() && least_mac_x(list) == (#[trigger] list[i]).x,
        exists|i: int| 0 <= i < list.len() && least_mac_y(list) == (#[trigger] list[i]).y,
        forall|j: int|
            0 <= j < list.len() ==> binary::value64(least_mac_x(list)) <= binary::value64(
                (#[trigger] list[j]).x,
            ) && binary::value64(least_mac_y(list)) <= binary::value64(list[j].y),
    decreases list.len(),
{
    let last = list.last();
    let before = list.drop_last();
    assert(list[list.len() - 1] == last);
    if before.len() > 0 {
        assert forall|i: int| 0 <= i < before.len() implies binary::is_finite64(
            (#[trigger] before[i]).x,
        ) && binary::is_finite64(before[i].y) by {
            assert(before[i] == list[i]);
        }
        least_mac_edges_are_least(before);
        let i = choose|i: int|
            0 <= i < before.len() && least_mac_x(before) == (#[trigger] before[i]).x;
        let k = choose|k: int|
            0 <= k < before.len() && least_mac_y(before) == (#[trigger] before[k]).y;
        assert(list[i] == before[i] && list[k] == before[k]);
        lesser_is_least64(least_mac_x(before), last.x);
        lesser_is_least64(least_mac_y(before), last.y);
        assert forall|j: int| 0 <= j < list.len() implies binary::value64(least_mac_x(list))
            <= binary::value64((#[trigger] list[j]).x) && binary::value64(least_mac_y(list))
            <= binary::value64(list[j].y) by {
            if j < before.len() {
                assert(before[j] == list[j]);
            }
        }
    } else {
        assert(least_mac_x(before) == INFINITY64 && least_mac_y(before) == INFINITY64);
        lesser_is_least64(INFINITY64, last.x);
        lesser_is_least64(INFINITY64, last.y);
    }
}

/// The binary64 number is whole, and no larger than a desktop.
pub open spec fn is_whole_double(bits: u64) -> bool {
    &&& binary::is_finite64(bits)
    &&& binary::value64(bits) % binary::one() == 0
    &&& -0x10_0000 * binary::one() <= binary::value64(bits) <= 0x10_0000 * binary::one()
}

/// A whole number keeps its value as a binary32 one.
pub proof fn whole_doubles_are_singles(bits: u64)
    requires
        binary::is_finite64(bits),
        binary::value64(bits) % binary::one() == 0,
        -0x80_0000 * binary::one() < binary::value64(bits) < 0x80_0000 * binary::one(),
    ensures
        binary::is_finite32(binary::narrowed(bits)),
        binary::value32(binary::narrowed(bits)) == binary::value64(bits),
{
    two_is_two();
    binary::ones_are_steps(binary::value64(bits), 1074);
    binary::narrowing_is_exact(bits, 1074);
}

proof fn mac_centre(edge: u64, least: u64, length: u64)
    requires
        is_whole_double(edge),
        is_whole_double(least),
        is_whole_double(length),
        binary::value64(length) >= 0,
    ensures
        ({
            let width = binary::narrowed(length);
            let place = binary::sum32(
                binary::narrowed(binary::difference64(edge, least)),
                binary::quotient32(width, TWO),
            );
            &&& is_whole(width)
            &&& binary::value32(width) == binary::value64(length)
            &&& binary::is_finite32(place)
            &&& edge_twice(place, width) == 2 * (binary::value64(edge) - binary::value64(least))
        }),
{
    two_is_two();
    let o = binary::one();
    let half = power2::pow2(1073) as int;
    let a = binary::value64(edge);
    let b = binary::value64(least);
    binary::steps_add_up(a, b, o);
    power2::lemma_pow2_adds(1074, 53);
    assert(power2::pow2(53) == 0x20_0000_0000_0000) by {
        power2::lemma2_to64_rest();
    }
    binary::differences_are_exact64(edge, least, 1074);
    let d = binary::difference64(edge, least);
    whole_doubles_are_singles(d);
    whole_doubles_are_singles(length);
    let width = binary::narrowed(length);
    half_of_a_length(width);
    let h = binary::quotient32(width, TWO);
    let v = binary::value32(h);
    assert(v % half == 0) by {
        let n = binary::value32(width);
        vstd::arithmetic::div_mod::lemma_fundamental_div_mod(n, o);
        let q = n / o;
        assert(v == q * half) by (nonlinear_arith)
            requires
                2 * v == n,
                n == o * q,
                o == 2 * half,
        ;
        vstd::arithmetic::div_mod::lemma_fundamental_div_mod_converse(v, half, q, 0);
    }
    assert((a - b) % half == 0) by {
        vstd::arithmetic::div_mod::lemma_fundamental_div_mod(a - b, o);
        let q = (a - b) / o;
        assert(a - b == (2 * q) * half) by (nonlinear_arith)
            requires
                a - b == o * q,
                o == 2 * half,
        ;
        vstd::arithmetic::div_mod::lemma_fundamental_div_mod_converse(a - b, half, 2 * q, 0);
    }
    binary::steps_add_up(a - b, v, half);
    binary::sums_are_exact32(binary::narrowed(d), h, 1073);
}

/// No display of macOS is further left than this one.
pub open spec fn is_leftmost(list: Seq<MacBounds>, m: int) -> bool {
    0 <= m < list.len() && forall|j: int|
        0 <= j < list.len() ==> binary::value64(list[m].x) <= binary::value64(
            (#[trigger] list[j]).x,
        )
}

/// No display of macOS is further up than this one.
pub open spec fn is_topmost(list: Seq<MacBounds>, m: int) -> bool {
    0 <= m < list.len() && forall|j: int|
        0 <= j < list.len() ==> binary::value64(list[m].y) <= binary::value64(
            (#[trigger] list[j]).y,
        )
}

proof fn least_edges_belong_to_displays(list: Seq<MacBounds>)
    requires
        list.len() > 0,
        forall|k: int|
            0 <= k < list.len() ==> is_whole_double((#[trigger] list[k]).x) && is_whole_double(
                list[k].y,
            ),
    ensures
        exists|m: int| #[trigger] is_leftmost(list, m) && least_mac_x(list) == list[m].x,
        exists|m: int| #[trigger] is_topmost(list, m) && least_mac_y(list) == list[m].y,
{
    assert forall|k: int| 0 <= k < list.len() implies binary::is_finite64((#[trigger] list[k]).x)
        && binary::is_finite64(list[k].y) by {
        assert(is_whole_double(list[k].x));
    }
    least_mac_edges_are_least(list);
    let p = choose|m: int| 0 <= m < list.len() && least_mac_x(list) == (#[trigger] list[m]).x;
    let q = choose|m: int| 0 <= m < list.len() && least_mac_y(list) == (#[trigger] list[m]).y;
    assert(is_leftmost(list, p));
    assert(is_topmost(list, q));
}

proof fn sides_are_positive(length: u64)
    requires
        is_whole_double(length),
    ensures
        binary::below32(0, binary::narrowed(length)) <==> binary::value64(length) > 0,
{
    power2::lemma_pow2_pos(1074);
    whole_doubles_are_singles(length);
    assert(binary::value32(0) == 0) by {
        binary::signs_are_values32(0);
        let y = power2::pow2(binary::exact32(0).shift as nat) as int;
        assert(0 * y == 0);
    }
    binary::order_is_by_value32(0, binary::narrowed(length));
}

/// A display of macOS with a width and a height is placed as it stands from the leftmost and the
/// topmost display, with its own size. It is the primary one where it has the identifier of that,
/// and keeps its number in the list of the system.
pub proof fn mac_displays_are_placed(list: Seq<MacBounds>, primary: u32, i: int)
    requires
        0 <= i < list.len() <= i32::MAX,
        forall|k: int|
            0 <= k < list.len() ==> is_whole_double((#[trigger] list[k]).x) && is_whole_double(
                list[k].y,
            ),
        is_whole_double(list[i].width),
        is_whole_double(list[i].height),
        binary::value64(list[i].width) >= 0,
        binary::value64(list[i].height) >= 0,
    ensures
        mac_display(list, primary, i) is Some <==> binary::value64(list[i].width) > 0
            && binary::value64(list[i].height) > 0,
        mac_display(list, primary, i) matches Some(d) ==> ({
            &&& binary::value32(d.width) == binary::value64(list[i].width)
            &&& binary::value32(d.height) == binary::value64(list[i].height)
            &&& d.index == i
            &&& d.detected
            &&& d.primary == (list[i].id == primary)
            &&& exists|m: int| #[trigger]
                is_leftmost(list, m) && edge_twice(d.x, d.width) == 2 * (binary::value64(list[i].x)
                    - binary::value64(list[m].x))
            &&& exists|m: int| #[trigger]
                is_topmost(list, m) && edge_twice(d.y, d.height) == 2 * (binary::value64(list[i].y)
                    - binary::value64(list[m].y))
        }),
{
    assert(is_whole_double(list[i].x) && is_whole_double(list[i].y));
    least_edges_belong_to_displays(list);
    let p = choose|m: int| #[trigger] is_leftmost(list, m) && least_mac_x(list) == list[m].x;
    let q = choose|m: int| #[trigger] is_topmost(list, m) && least_mac_y(list) == list[m].y;
    assert(is_whole_double(list[p].x) && is_whole_double(list[q].y));
    mac_centre(list[i].x, least_mac_x(list), list[i].width);
    mac_centre(list[i].y, least_mac_y(list), list[i].height);
    sides_are_positive(list[i].width);
    sides_are_positive(list[i].height);
}

/// The displays of macOS are those of its list that have a width and a height, in order.
pub proof fn mac_displays_are_in_order(list: Seq<MacBounds>, primary: u32, n: nat)
    requires
        n < list.len(),
    ensures
        mac_displays(list, primary, n + 1) == match mac_display(list, primary, n as int) {
            Some(display) => mac_displays(list, primary, n).push(display),
            None => mac_displays(list, primary, n),
        },
        mac_displays(list, primary, 0).len() == 0,
{
}

proof fn windows_edges(list: Seq<WindowsDisplayBounds>)
    requires
        list.len() > 0,
    ensures
        exists|i: int| 0 <= i < list.len() && least_left(list) == (#[trigger] list[i]).rect.left,
        exists|i: int| 0 <= i < list.len() && least_top(list) == (#[trigger] list[i]).rect.top,
        forall|j: int|
            0 <= j < list.len() ==> least_left(list) <= (#[trigger] list[j]).rect.left
                && least_top(list) <= list[j].rect.top,
    decreases list.len(),
{
    assert(list[list.len() - 1] == list.last());
    if list.len() > 1 {
        let before = list.drop_last();
        windows_edges(before);
        let i = choose|i: int|
            0 <= i < before.len() && least_left(before) == (#[trigger] before[i]).rect.left;
        let k = choose|k: int|
            0 <= k < before.len() && least_top(before) == (#[trigger] before[k]).rect.top;
        assert(list[i] == before[i] && list[k] == before[k]);
        assert forall|j: int| 0 <= j < list.len() implies least_left(list) <= (
        #[trigger] list[j]).rect.left && least_top(list) <= list[j].rect.top by {
            if j < before.len() {
                assert(before[j] == list[j]);
            }
        }
    } else {
        assert(list[0].rect.left == least_left(list));
        assert(list[0].rect.top == least_top(list));
    }
}

proof fn primary_is_first(list: Seq<WindowsDisplayBounds>, from: int)
    requires
        0 <= from,
    ensures
        match first_primary(list, from) {
            Some(i) => from <= i < list.len() && list[i].primary && forall|k: int|
                from <= k < i ==> !(#[trigger] list[k]).primary,
            None => forall|k: int| from <= k < list.len() ==> !(#[trigger] list[k]).primary,
        },
    decreases list.len() - from,
{
    if from < list.len() && !list[from].primary {
        primary_is_first(list, from + 1);
    }
}

proof fn windows_centre(edge: int, length: int)
    requires
        -0x40_0000 <= edge <= 0x40_0000,
        0 <= length <= 0x20_0000,
    ensures
        ({
            let width = binary::integer32(length);
            let place = binary::sum32(
                binary::integer32(edge),
                binary::quotient32(width, TWO),
            );
            &&& binary::is_finite32(width)
            &&& binary::value32(width) == length * binary::one()
            &&& binary::is_finite32(place)
            &&& edge_twice(place, width) == 2 * edge * binary::one()
        }),
{
    two_is_two();
    let o = binary::one();
    let half = power2::pow2(1073) as int;
    binary::integers_are_exact32(edge);
    binary::integers_are_exact32(length);
    let width = binary::integer32(length);
    binary::signs_are_values32(width);
    let magnitude = binary::exact32(width).magnitude();
    assert(length * o >= 0) by (nonlinear_arith)
        requires
            length >= 0,
            o > 0,
    ;
    let m = length * half;
    assert(length * o == 2 * m) by (nonlinear_arith)
        requires
            o == 2 * half,
            m == length * half,
    ;
    assert(magnitude == 2 * m);
    vstd::arithmetic::div_mod::lemma_fundamental_div_mod_converse(m, half, length, 0);
    assert(m < o * 0x80_0000) by (nonlinear_arith)
        requires
            2 * m == length * o,
            length <= 0x20_0000,
            o > 0,
    ;
    binary::quotients_are_exact32(width, TWO, m as nat, 2, 1073);
    let h = binary::quotient32(width, TWO);
    binary::signs_are_values32(h);
    let e = edge * o;
    assert(e == (2 * edge) * half) by (nonlinear_arith)
        requires
            e == edge * o,
            o == 2 * half,
    ;
    vstd::arithmetic::div_mod::lemma_fundamental_div_mod_converse(e, half, 2 * edge, 0);
    binary::steps_add_up(e, m, half);
    assert(-0x40_0000 * o <= e <= 0x40_0000 * o) by (nonlinear_arith)
        requires
            e == edge * o,
            -0x40_0000 <= edge <= 0x40_0000,
            o > 0,
    ;
    assert(m <= 0x10_0000 * o) by (nonlinear_arith)
        requires
            2 * m == length * o,
            length <= 0x20_0000,
            o > 0,
    ;
    assert(binary::value32(h) == m);
    binary::sums_are_exact32(binary::integer32(edge), h, 1073);
    assert(2 * (edge * o) == 2 * edge * o) by (nonlinear_arith);
}

/// The monitors of Windows are placed with their own sizes, and stand to each other as they do on
/// the desktop. The one with the least edge stands as far from zero as the first primary one
/// stands from the least edge, and at zero where none is primary.
pub proof fn windows_monitors_are_placed(list: Seq<WindowsDisplayBounds>, i: int)
    requires
        0 <= i < list.len() <= i32::MAX,
        forall|k: int|
            0 <= k < list.len() ==> -0x10_0000 <= (#[trigger] list[k]).rect.left
                <= list[k].rect.right <= 0x10_0000 && -0x10_0000 <= list[k].rect.top
                <= list[k].rect.bottom <= 0x10_0000,
    ensures
        ({
            let d = windows_display(list, i);
            let rect = list[i].rect;
            &&& binary::value32(d.width) == (rect.right - rect.left) * binary::one()
            &&& binary::value32(d.height) == (rect.bottom - rect.top) * binary::one()
            &&& d.index == i
            &&& d.detected
            &&& d.primary == list[i].primary
            &&& exists|m: int|
                0 <= m < list.len() && (forall|j: int|
                    0 <= j < list.len() ==> (#[trigger] list[m]).rect.left <= (
                    #[trigger] list[j]).rect.left) && edge_twice(d.x, d.width) == 2 * (rect.left
                    - list[m].rect.left + shift_of(list, |r: WindowsRect| r.left as int, m))
                    * binary::one()
            &&& exists|m: int|
                0 <= m < list.len() && (forall|j: int|
                    0 <= j < list.len() ==> (#[trigger] list[m]).rect.top <= (
                    #[trigger] list[j]).rect.top) && edge_twice(d.y, d.height) == 2 * (rect.top
                    - list[m].rect.top + shift_of(list, |r: WindowsRect| r.top as int, m))
                    * binary::one()
        }),
{
    windows_edges(list);
    primary_is_first(list, 0);
    let p = choose|m: int| 0 <= m < list.len() && least_left(list) == (#[trigger] list[m]).rect.left;
    let q = choose|m: int| 0 <= m < list.len() && least_top(list) == (#[trigger] list[m]).rect.top;
    let rect = list[i].rect;
    let offset = primary_offset(list);
    assert(list[p].rect.left <= list[i].rect.left && list[q].rect.top <= list[i].rect.top);
    match first_primary(list, 0) {
        Some(k) => {
            assert(list[k].primary);
            assert(shift_of(list, |r: WindowsRect| r.left as int, p) == offset.0) by {
                one_primary(list, k);
            }
            assert(shift_of(list, |r: WindowsRect| r.top as int, q) == offset.1) by {
                one_primary(list, k);
            }
        },
        None => {},
    }
    windows_centre(rect.left - least_left(list) + offset.0, rect.right - rect.left);
    windows_centre(rect.top - least_top(list) + offset.1, rect.bottom - rect.top);
}

/// The monitor is the first primary one.
pub open spec fn is_first_primary(list: Seq<WindowsDisplayBounds>, k: int) -> bool {
    &&& 0 <= k < list.len()
    &&& list[k].primary
    &&& forall|n: int| 0 <= n < k ==> !(#[trigger] list[n]).primary
}

/// How far an edge of the first primary monitor is from that of another one; nothing where none
/// is primary.
pub open spec fn shift_of(
    list: Seq<WindowsDisplayBounds>,
    edge: spec_fn(WindowsRect) -> int,
    m: int,
) -> int {
    if exists|k: int| #[trigger] is_first_primary(list, k) {
        let k = choose|k: int| #[trigger] is_first_primary(list, k);
        edge(list[k].rect) - edge(list[m].rect)
    } else {
        0
    }
}

proof fn one_primary(list: Seq<WindowsDisplayBounds>, k: int)
    requires
        is_first_primary(list, k),
    ensures
        forall|n: int| #[trigger] is_first_primary(list, n) ==> n == k,
{
    assert forall|n: int| #[trigger] is_first_primary(list, n) implies n == k by {
        if n < k {
            assert(!list[n].primary);
        } else if n > k {
            assert(!list[k].primary);
        }
    }
}

// ---- which display an area covers ----

/// The number counts halves, and is no larger than a desktop.
pub open spec fn in_halves(bits: u32) -> bool {
    &&& binary::is_finite32(bits)
    &&& (2 * binary::value32(bits)) % binary::one() == 0
    &&& -0x20_0000 * binary::one() <= binary::value32(bits) <= 0x20_0000 * binary::one()
}

proof fn within_is_exact(a: u32, b: u32)
    requires
        in_halves(a),
        in_halves(b),
    ensures
        within(a, b, TWO) <==> binary::distance(binary::value32(a) - binary::value32(b)) < 2
            * binary::one(),
        within(a, b, THREE) <==> binary::distance(binary::value32(a) - binary::value32(b)) < 3
            * binary::one(),
{
    two_is_two();
    let o = binary::one();
    let half = power2::pow2(1073) as int;
    let x = binary::value32(a);
    let y = binary::value32(b);
    halves_are_steps(x);
    halves_are_steps(y);
    binary::steps_add_up(x, y, half);
    binary::differences_are_exact32(a, b, 1073);
    let d = binary::difference32(a, b);
    let m = binary::absolute32(d);
    binary::signs_are_values32(d);
    assert(binary::is_finite32(m) && binary::exact32(m).magnitude() == binary::exact32(
        d,
    ).magnitude());
    binary::signs_are_values32(m);
    binary::order_is_by_value32(m, TWO);
    binary::order_is_by_value32(m, THREE);
}

/// A count of halves is one of the steps that a half is.
pub proof fn halves_are_steps(v: int)
    requires
        (2 * v) % binary::one() == 0,
    ensures
        v % power2::pow2(1073) as int == 0,
{
    two_is_two();
    let o = binary::one();
    let half = power2::pow2(1073) as int;
    vstd::arithmetic::div_mod::lemma_fundamental_div_mod(2 * v, o);
    let q = (2 * v) / o;
    assert(v == q * half) by (nonlinear_arith)
        requires
            2 * v == o * q,
            o == 2 * half,
    ;
    vstd::arithmetic::div_mod::lemma_fundamental_div_mod_converse(v, half, q, 0);
}

/// An area and a display differ by less than two in their sizes and by less than three in their
/// places.
pub open spec fn stands_on(d: Display, width: u32, height: u32, x: u32, y: u32) -> bool {
    &&& binary::distance(binary::value32(d.width) - binary::value32(width)) < 2 * binary::one()
    &&& binary::distance(binary::value32(d.height) - binary::value32(height)) < 2 * binary::one()
    &&& binary::distance(binary::value32(d.x) - binary::value32(x)) < 3 * binary::one()
    &&& binary::distance(binary::value32(d.y) - binary::value32(y)) < 3 * binary::one()
}

/// The display that an area covers is the first one that it stands on, and there is none where it
/// stands on none.
pub proof fn the_first_covered_display_is_found(
    list: Seq<Display>,
    width: u32,
    height: u32,
    x: u32,
    y: u32,
    from: int,
)
    requires
        0 <= from <= list.len(),
        in_halves(width),
        in_halves(height),
        in_halves(x),
        in_halves(y),
        forall|i: int|
            0 <= i < list.len() ==> in_halves((#[trigger] list[i]).width) && in_halves(
                list[i].height,
            ) && in_halves(list[i].x) && in_halves(list[i].y),
    ensures
        ({
            let index = covered(list, width, height, x, y, from);
            ||| exists|i: int|
                from <= i < list.len() && #[trigger] stands_on(list[i], width, height, x, y)
                    && index == list[i].index && forall|k: int|
                    from <= k < i ==> !#[trigger] stands_on(list[k], width, height, x, y)
            ||| index == -1 && forall|k: int|
                from <= k < list.len() ==> !#[trigger] stands_on(list[k], width, height, x, y)
        }),
    decreases list.len() - from,
{
    if from < list.len() {
        let d = list[from];
        within_is_exact(d.width, width);
        within_is_exact(d.height, height);
        within_is_exact(d.x, x);
        within_is_exact(d.y, y);
        assert(covers(d, width, height, x, y) == stands_on(d, width, height, x, y));
        if covers(d, width, height, x, y) {
            assert(stands_on(list[from], width, height, x, y));
        } else {
            the_first_covered_display_is_found(list, width, height, x, y, from + 1);
            if exists|i: int|
                from + 1 <= i < list.len() && #[trigger] stands_on(list[i], width, height, x, y)
                    && covered(list, width, height, x, y, from + 1) == list[i].index && forall|
                    k: int,
                |
                    from + 1 <= k < i ==> !#[trigger] stands_on(list[k], width, height, x, y) {
                let i = choose|i: int|
                    from + 1 <= i < list.len() && #[trigger] stands_on(
                        list[i],
                        width,
                        height,
                        x,
                        y,
                    ) && covered(list, width, height, x, y, from + 1) == list[i].index && forall|
                        k: int,
                    |
                        from + 1 <= k < i ==> !#[trigger] stands_on(list[k], width, height, x, y);
                assert(stands_on(list[i], width, height, x, y));
            }
        }
    }
}

// ---- what is shown of displays ----

/// A label says what display it is, and its width and height in whole numbers.
pub open spec fn says_display(shown: Seq<char>, index: int, m: int, n: int, primary: bool) -> bool {
    exists|a: Seq<char>, b: Seq<char>| #[trigger]
        says_size(a, b, m, n) && shown == (if primary {
            "Primary display"@
        } else {
            "Display "@ + decimal::decimal((index + 1) as nat)
        }) + " · "@ + (a + " × "@ + b)
}

/// Two texts say two whole numbers.
pub open spec fn says_size(a: Seq<char>, b: Seq<char>, m: int, n: int) -> bool {
    decimal::said(a, 0) == Some(m) && decimal::said(b, 0) == Some(n)
}

proof fn whole_text(bits: u32, m: int)
    requires
        binary::is_finite32(bits),
        binary::value32(bits) == m * binary::one(),
    ensures
        decimal::said(decimal::fixed32(bits, 0), 0) == Some(m),
{
    decimal::written_numbers_say_their_value32(bits, 0);
    let k = decimal::said(decimal::fixed32(bits, 0), 0)->0;
    let o = binary::one();
    power2::lemma_pow2_pos(1074);
    assert(decimal::ten_to(0) == 1);
    let exact = binary::value32(bits) * decimal::ten_to(0);
    assert(exact == m * o) by (nonlinear_arith)
        requires
            exact == binary::value32(bits) * 1,
            binary::value32(bits) == m * o,
    ;
    assert(k == m) by (nonlinear_arith)
        requires
            -o <= 2 * (k * o - m * o) <= o,
            o > 0,
    ;
}

/// A label says the size of its display, and whether it is the primary one or which one it is.
pub proof fn labels_say_the_size(
    index: nat,
    width: u32,
    height: u32,
    primary: bool,
    m: int,
    n: int,
)
    requires
        binary::is_finite32(width),
        binary::is_finite32(height),
        binary::value32(width) == m * binary::one(),
        binary::value32(height) == n * binary::one(),
    ensures
        says_display(label(index, width, height, primary), index as int, m, n, primary),
{
    whole_text(width, m);
    whole_text(height, n);
    let a = decimal::fixed32(width, 0);
    let b = decimal::fixed32(height, 0);
    assert(says_size(a, b, m, n));
    reveal_strlit("Primary display · ");
    reveal_strlit("Primary display");
    reveal_strlit(" · ");
    assert("Primary display · "@ =~= "Primary display"@ + " · "@);
    let shown = label(index, width, height, primary);
    if primary {
        assert(shown =~= "Primary display"@ + " · "@ + (a + " × "@ + b));
    } else {
        assert(shown =~= ("Display "@ + decimal::decimal((index + 1) as nat)) + " · "@ + (a
            + " × "@ + b));
    }
}

/// Every display that is found has a label with its place, its size and whether it is primary.
pub proof fn found_displays_are_labelled(
    listed: Seq<ListedDisplay>,
    list: Seq<MacBounds>,
    primary: u32,
    monitors: Seq<WindowsDisplayBounds>,
    i: int,
)
    requires
        0 <= i,
    ensures
        mac_display(list, primary, i) matches Some(d) ==> d.label == label(
            i as nat,
            d.width,
            d.height,
            d.primary,
        ),
        ({
            let d = placed(listed, i);
            d.label == label(i as nat, d.width, d.height, d.primary)
        }),
        ({
            let d = windows_display(monitors, i);
            d.label == label(i as nat, d.width, d.height, d.primary)
        }),
{
}

/// The displays are those that were found, and one that stands in for them where none was: a
/// primary one of 1920 by 1080 that was not detected.
pub proof fn a_display_stands_in_for_none(found: Seq<Display>)
    ensures
        found.len() > 0 ==> or_stand_in(found) == found,
        found.len() == 0 ==> or_stand_in(found).len() == 1,
        found.len() == 0 ==> ({
            let d = or_stand_in(found)[0];
            &&& d.index == 0
            &&& !d.detected
            &&& d.primary
            &&& binary::value32(d.width) == 1920 * binary::one()
            &&& binary::value32(d.height) == 1080 * binary::one()
            &&& edge_twice(d.x, d.width) == 0
            &&& edge_twice(d.y, d.height) == 0
        }),
{
    stand_in_has_its_size();
}

proof fn stand_in_has_its_size()
    ensures
        ({
            let d = Display::stand_in();
            &&& binary::value32(d.width) == 1920 * binary::one()
            &&& binary::value32(d.height) == 1080 * binary::one()
            &&& binary::value32(d.x) == 960 * binary::one()
            &&& binary::value32(d.y) == 540 * binary::one()
        }),
{
    let d = Display::stand_in();
    assert(power2::pow2(52) == 0x10_0000_0000_0000 && power2::pow2(9) == 512 && power2::pow2(10)
        == 1024) by {
        power2::lemma2_to64();
        power2::lemma2_to64_rest();
    }
    power2::lemma_pow2_adds(52, 1022);
    power2::lemma_pow2_adds(9, 1022);
    power2::lemma_pow2_adds(10, 1022);
    let z = power2::pow2(1022) as int;
    let w = binary::exact32(d.width);
    assert(w.significand == 0x1e_0000_0000_0000 && w.shift == 1032);
    assert(0x1e_0000_0000_0000 * (1024 * z) == 1920 * (0x10_0000_0000_0000 * z))
        by (nonlinear_arith);
    let h = binary::exact32(d.height);
    assert(h.significand == 0x10_e000_0000_0000 && h.shift == 1032);
    assert(0x10_e000_0000_0000 * (1024 * z) == 1080 * (0x10_0000_0000_0000 * z))
        by (nonlinear_arith);
    let x = binary::exact32(d.x);
    assert(x.significand == 0x1e_0000_0000_0000 && x.shift == 1031);
    assert(0x1e_0000_0000_0000 * (512 * z) == 960 * (0x10_0000_0000_0000 * z)) by (nonlinear_arith);
    let y = binary::exact32(d.y);
    assert(y.significand == 0x10_e000_0000_0000 && y.shift == 1031);
    assert(0x10_e000_0000_0000 * (512 * z) == 540 * (0x10_0000_0000_0000 * z)) by (nonlinear_arith);
}

/// The monitors of Windows are listed one by one, in the order of the system.
pub proof fn windows_monitors_are_in_order(list: Seq<WindowsDisplayBounds>, i: int)
    ensures
        windows_displays(list).len() == list.len(),
        0 <= i < list.len() ==> windows_displays(list)[i] == windows_display(list, i),
{
}

/// What is said of a display follows its fields, each for its own.
pub proof fn displays_are_what_their_fields_say(display: DisplayInfo, list: Seq<DisplayInfo>, i: int)
    ensures
        display@.index == display.index,
        display@.label == display.label@,
        display@.width == display.width,
        display@.height == display.height,
        display@.x == display.x,
        display@.y == display.y,
        display@.detected == display.detected,
        display@.primary == display.primary,
        displays(list).len() == list.len(),
        0 <= i < list.len() ==> displays(list)[i] == list[i]@,
{
}

} // verus!
