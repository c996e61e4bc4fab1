//! Words chosen by a number: remarks on the temperature and names of
//! countries.

use vstd::prelude::*;

verus! {

/// What there is to say of a temperature at first.
pub open spec fn remark(temp: int) -> Seq<char> {
    if temp > 30 {
        "really hot outside!"@
    } else if temp < 10 {
        "really cold!"@
    } else {
        "temperature is OK"@
    }
}

/// The sky that goes with a temperature.
pub open spec fn sky(temp: int) -> Seq<char> {
    if temp > 20 {
        "sunny"@
    } else {
        "cloudy"@
    }
}

/// How a temperature feels.
pub open spec fn feeling(temp: int) -> Seq<char> {
    if temp > 20 {
        "hot"@
    } else if temp < 10 {
        "cold"@
    } else {
        "OK"@
    }
}

/// How a temperature feels, with the great heat told apart.
pub open spec fn close_feeling(temp: int) -> Seq<char> {
    if temp > 30 {
        "very hot"@
    } else {
        feeling(temp)
    }
}

/// The country that has a calling code.
pub open spec fn country(code: int) -> Seq<char> {
    if code == 44 {
        "UK"@
    } else if code == 46 {
        "Sweden"@
    } else if code == 7 {
        "Russia"@
    } else if 1 <= code <= 1000 {
        "unknown"@
    } else {
        "invalid"@
    }
}

/// What there is to say of the temperature `temp` at first.
pub fn remark_on(temp: i32) -> (words: &'static str)
    ensures
        words@ == remark(temp as int),
{
    if temp > 30 {
        "really hot outside!"
    } else if temp < 10 {
        "really cold!"
    } else {
        "temperature is OK"
    }
}

/// The sky that goes with the temperature `temp`.
pub fn sky_at(temp: i32) -> (words: &'static str)
    ensures
        words@ == sky(temp as int),
{
    if temp > 20 {
        "sunny"
    } else {
        "cloudy"
    }
}

/// How the temperature `temp` feels.
pub fn feeling_at(temp: i32) -> (words: &'static str)
    ensures
        words@ == feeling(temp as int),
{
    if temp > 20 {
        "hot"
    } else if temp < 10 {
        "cold"
    } else {
        "OK"
    }
}

/// How the temperature `temp` feels, with the great heat told apart.
pub fn close_feeling_at(temp: i32) -> (words: &'static str)
    ensures
        words@ == close_feeling(temp as int),
{
    if temp > 20 {
        if temp > 30 {
            "very hot"
        } else {
            "hot"
        }
    } else if temp < 10 {
        "cold"
    } else {
        "OK"
    }
}

/// The country that has the calling code `code`.
pub fn country_of(code: i32) -> (name: &'static str)
    ensures
        name@ == country(code as int),
{
    match code {
        44 => "UK",
        46 => "Sweden",
        7 => "Russia",
        1..=1000 => "unknown",
        _ => "invalid",
    }
}

/// The word for a truth value.
pub fn yes_or_no(x: bool) -> (word: &'static str)
    ensures
        word@ == if x {
            "yes"@
        } else {
            "no"@
        },
{
    match x {
        true => "yes",
        false => "no",
    }
}

} // verus!
