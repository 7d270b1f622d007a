//! The curated table of Slack emoji shortcodes that are resolved without
//! consulting the general shortcode database.
use vstd::prelude::*;
use crate::text::{eq_literal, literal_string, option_view};

verus! {

/// The curated table: the emoji for a Slack shortcode, if listed.
pub open spec fn curated_emoji(name: Seq<char>) -> Option<Seq<char>> {
    match curated_emoji_1(name) {
        Some(e) => Some(e),
        None => match curated_emoji_2(name) {
            Some(e) => Some(e),
            None => match curated_emoji_3(name) {
                Some(e) => Some(e),
                None => curated_emoji_4(name),
            },
        },
    }
}

/// Looks `name` up in the curated table.
pub fn lookup_curated(name: &Vec<char>) -> (r: Option<String>)
    ensures
        option_view(r) == curated_emoji(name@),
{
    let r = lookup_curated_1(name);
    if r.is_some() {
        return r;
    }
    let r = lookup_curated_2(name);
    if r.is_some() {
        return r;
    }
    let r = lookup_curated_3(name);
    if r.is_some() {
        return r;
    }
    lookup_curated_4(name)
}

/// Part 1 of the curated Slack shortcode table.
pub open spec fn curated_emoji_1(name: Seq<char>) -> Option<Seq<char>> {
    if name == "+1"@ { Some("\u{1F44D}"@) } else
    if name == "thumbsup"@ { Some("\u{1F44D}"@) } else
    if name == "-1"@ { Some("\u{1F44E}"@) } else
    if name == "thumbsdown"@ { Some("\u{1F44E}"@) } else
    if name == "heart"@ { Some("\u{2764}\u{FE0F}"@) } else
    if name == "heart_eyes"@ { Some("\u{1F60D}"@) } else
    if name == "joy"@ { Some("\u{1F602}"@) } else
    if name == "rofl"@ { Some("\u{1F923}"@) } else
    if name == "smile"@ { Some("\u{1F604}"@) } else
    if name == "grinning"@ { Some("\u{1F600}"@) } else
    if name == "smiley"@ { Some("\u{1F603}"@) } else
    if name == "laughing"@ { Some("\u{1F606}"@) } else
    if name == "wink"@ { Some("\u{1F609}"@) } else
    if name == "blush"@ { Some("\u{1F60A}"@) } else
    if name == "yum"@ { Some("\u{1F60B}"@) } else
    if name == "sunglasses"@ { Some("\u{1F60E}"@) } else
    if name == "thinking_face"@ { Some("\u{1F914}"@) } else
    if name == "thinking"@ { Some("\u{1F914}"@) } else
    if name == "raised_hands"@ { Some("\u{1F64C}"@) } else
    if name == "clap"@ { Some("\u{1F44F}"@) } else
    if name == "fire"@ { Some("\u{1F525}"@) } else
    if name == "100"@ { Some("\u{1F4AF}"@) } else
    if name == "tada"@ { Some("\u{1F389}"@) } else
    if name == "party_popper"@ { Some("\u{1F389}"@) } else
    if name == "rocket"@ { Some("\u{1F680}"@) } else
    { None }
}

/// Part 2 of the curated Slack shortcode table.
pub open spec fn curated_emoji_2(name: Seq<char>) -> Option<Seq<char>> {
    if name == "star"@ { Some("\u{2B50}"@) } else
    if name == "eyes"@ { Some("\u{1F440}"@) } else
    if name == "wave"@ { Some("\u{1F44B}"@) } else
    if name == "pray"@ { Some("\u{1F64F}"@) } else
    if name == "muscle"@ { Some("\u{1F4AA}"@) } else
    if name == "ok_hand"@ { Some("\u{1F44C}"@) } else
    if name == "v"@ { Some("\u{270C}\u{FE0F}"@) } else
    if name == "point_up"@ { Some("\u{261D}\u{FE0F}"@) } else
    if name == "point_down"@ { Some("\u{1F447}"@) } else
    if name == "point_left"@ { Some("\u{1F448}"@) } else
    if name == "point_right"@ { Some("\u{1F449}"@) } else
    if name == "sob"@ { Some("\u{1F62D}"@) } else
    if name == "cry"@ { Some("\u{1F622}"@) } else
    if name == "angry"@ { Some("\u{1F620}"@) } else
    if name == "rage"@ { Some("\u{1F621}"@) } else
    if name == "scream"@ { Some("\u{1F631}"@) } else
    if name == "fearful"@ { Some("\u{1F628}"@) } else
    if name == "sweat"@ { Some("\u{1F613}"@) } else
    if name == "disappointed"@ { Some("\u{1F61E}"@) } else
    if name == "confused"@ { Some("\u{1F615}"@) } else
    if name == "neutral_face"@ { Some("\u{1F610}"@) } else
    if name == "expressionless"@ { Some("\u{1F611}"@) } else
    if name == "unamused"@ { Some("\u{1F612}"@) } else
    if name == "rolling_eyes"@ { Some("\u{1F644}"@) } else
    if name == "grimacing"@ { Some("\u{1F62C}"@) } else
    { None }
}

/// Part 3 of the curated Slack shortcode table.
pub open spec fn curated_emoji_3(name: Seq<char>) -> Option<Seq<char>> {
    if name == "relieved"@ { Some("\u{1F60C}"@) } else
    if name == "pensive"@ { Some("\u{1F614}"@) } else
    if name == "sleepy"@ { Some("\u{1F62A}"@) } else
    if name == "sleeping"@ { Some("\u{1F634}"@) } else
    if name == "mask"@ { Some("\u{1F637}"@) } else
    if name == "nerd_face"@ { Some("\u{1F913}"@) } else
    if name == "worried"@ { Some("\u{1F61F}"@) } else
    if name == "flushed"@ { Some("\u{1F633}"@) } else
    if name == "hugs"@ { Some("\u{1F917}"@) } else
    if name == "hugging_face"@ { Some("\u{1F917}"@) } else
    if name == "cowboy_hat_face"@ { Some("\u{1F920}"@) } else
    if name == "clown_face"@ { Some("\u{1F921}"@) } else
    if name == "shushing_face"@ { Some("\u{1F92B}"@) } else
    if name == "exploding_head"@ { Some("\u{1F92F}"@) } else
    if name == "partying_face"@ { Some("\u{1F973}"@) } else
    if name == "star_struck"@ { Some("\u{1F929}"@) } else
    if name == "money_mouth_face"@ { Some("\u{1F911}"@) } else
    if name == "zany_face"@ { Some("\u{1F92A}"@) } else
    if name == "skull"@ { Some("\u{1F480}"@) } else
    if name == "ghost"@ { Some("\u{1F47B}"@) } else
    if name == "alien"@ { Some("\u{1F47D}"@) } else
    if name == "robot_face"@ { Some("\u{1F916}"@) } else
    if name == "poop"@ { Some("\u{1F4A9}"@) } else
    if name == "hankey"@ { Some("\u{1F4A9}"@) } else
    if name == "see_no_evil"@ { Some("\u{1F648}"@) } else
    { None }
}

/// Part 4 of the curated Slack shortcode table.
pub open spec fn curated_emoji_4(name: Seq<char>) -> Option<Seq<char>> {
    if name == "hear_no_evil"@ { Some("\u{1F649}"@) } else
    if name == "speak_no_evil"@ { Some("\u{1F64A}"@) } else
    if name == "kiss"@ { Some("\u{1F48B}"@) } else
    if name == "cupid"@ { Some("\u{1F498}"@) } else
    if name == "sparkling_heart"@ { Some("\u{1F496}"@) } else
    if name == "broken_heart"@ { Some("\u{1F494}"@) } else
    if name == "orange_heart"@ { Some("\u{1F9E1}"@) } else
    if name == "yellow_heart"@ { Some("\u{1F49B}"@) } else
    if name == "green_heart"@ { Some("\u{1F49A}"@) } else
    if name == "blue_heart"@ { Some("\u{1F499}"@) } else
    if name == "purple_heart"@ { Some("\u{1F49C}"@) } else
    if name == "black_heart"@ { Some("\u{1F5A4}"@) } else
    if name == "white_heart"@ { Some("\u{1F90D}"@) } else
    if name == "two_hearts"@ { Some("\u{1F495}"@) } else
    if name == "revolving_hearts"@ { Some("\u{1F49E}"@) } else
    if name == "check"@ { Some("\u{2705}"@) } else
    if name == "white_check_mark"@ { Some("\u{2705}"@) } else
    if name == "x"@ { Some("\u{274C}"@) } else
    if name == "heavy_check_mark"@ { Some("\u{2714}\u{FE0F}"@) } else
    if name == "warning"@ { Some("\u{26A0}\u{FE0F}"@) } else
    if name == "no_entry"@ { Some("\u{26D4}"@) } else
    if name == "question"@ { Some("\u{2753}"@) } else
    if name == "exclamation"@ { Some("\u{2757}"@) } else
    { None }
}

fn lookup_curated_1(name: &Vec<char>) -> (r: Option<String>)
    ensures
        option_view(r) == curated_emoji_1(name@),
{
    if eq_literal(name, "+1") {
        return Some(literal_string("\u{1F44D}"));
    }
    if eq_literal(name, "thumbsup") {
        return Some(literal_string("\u{1F44D}"));
    }
    if eq_literal(name, "-1") {
        return Some(literal_string("\u{1F44E}"));
    }
    if eq_literal(name, "thumbsdown") {
        return Some(literal_string("\u{1F44E}"));
    }
    if eq_literal(name, "heart") {
        return Some(literal_string("\u{2764}\u{FE0F}"));
    }
    if eq_literal(name, "heart_eyes") {
        return Some(literal_string("\u{1F60D}"));
    }
    if eq_literal(name, "joy") {
        return Some(literal_string("\u{1F602}"));
    }
    if eq_literal(name, "rofl") {
        return Some(literal_string("\u{1F923}"));
    }
    if eq_literal(name, "smile") {
        return Some(literal_string("\u{1F604}"));
    }
    if eq_literal(name, "grinning") {
        return Some(literal_string("\u{1F600}"));
    }
    if eq_literal(name, "smiley") {
        return Some(literal_string("\u{1F603}"));
    }
    if eq_literal(name, "laughing") {
        return Some(literal_string("\u{1F606}"));
    }
    if eq_literal(name, "wink") {
        return Some(literal_string("\u{1F609}"));
    }
    if eq_literal(name, "blush") {
        return Some(literal_string("\u{1F60A}"));
    }
    if eq_literal(name, "yum") {
        return Some(literal_string("\u{1F60B}"));
    }
    if eq_literal(name, "sunglasses") {
        return Some(literal_string("\u{1F60E}"));
    }
    if eq_literal(name, "thinking_face") {
        return Some(literal_string("\u{1F914}"));
    }
    if eq_literal(name, "thinking") {
        return Some(literal_string("\u{1F914}"));
    }
    if eq_literal(name, "raised_hands") {
        return Some(literal_string("\u{1F64C}"));
    }
    if eq_literal(name, "clap") {
        return Some(literal_string("\u{1F44F}"));
    }
    if eq_literal(name, "fire") {
        return Some(literal_string("\u{1F525}"));
    }
    if eq_literal(name, "100") {
        return Some(literal_string("\u{1F4AF}"));
    }
    if eq_literal(name, "tada") {
        return Some(literal_string("\u{1F389}"));
    }
    if eq_literal(name, "party_popper") {
        return Some(literal_string("\u{1F389}"));
    }
    if eq_literal(name, "rocket") {
        return Some(literal_string("\u{1F680}"));
    }
    None
}

fn lookup_curated_2(name: &Vec<char>) -> (r: Option<String>)
    ensures
        option_view(r) == curated_emoji_2(name@),
{
    if eq_literal(name, "star") {
        return Some(literal_string("\u{2B50}"));
    }
    if eq_literal(name, "eyes") {
        return Some(literal_string("\u{1F440}"));
    }
    if eq_literal(name, "wave") {
        return Some(literal_string("\u{1F44B}"));
    }
    if eq_literal(name, "pray") {
        return Some(literal_string("\u{1F64F}"));
    }
    if eq_literal(name, "muscle") {
        return Some(literal_string("\u{1F4AA}"));
    }
    if eq_literal(name, "ok_hand") {
        return Some(literal_string("\u{1F44C}"));
    }
    if eq_literal(name, "v") {
        return Some(literal_string("\u{270C}\u{FE0F}"));
    }
    if eq_literal(name, "point_up") {
        return Some(literal_string("\u{261D}\u{FE0F}"));
    }
    if eq_literal(name, "point_down") {
        return Some(literal_string("\u{1F447}"));
    }
    if eq_literal(name, "point_left") {
        return Some(literal_string("\u{1F448}"));
    }
    if eq_literal(name, "point_right") {
        return Some(literal_string("\u{1F449}"));
    }
    if eq_literal(name, "sob") {
        return Some(literal_string("\u{1F62D}"));
    }
    if eq_literal(name, "cry") {
        return Some(literal_string("\u{1F622}"));
    }
    if eq_literal(name, "angry") {
        return Some(literal_string("\u{1F620}"));
    }
    if eq_literal(name, "rage") {
        return Some(literal_string("\u{1F621}"));
    }
    if eq_literal(name, "scream") {
        return Some(literal_string("\u{1F631}"));
    }
    if eq_literal(name, "fearful") {
        return Some(literal_string("\u{1F628}"));
    }
    if eq_literal(name, "sweat") {
        return Some(literal_string("\u{1F613}"));
    }
    if eq_literal(name, "disappointed") {
        return Some(literal_string("\u{1F61E}"));
    }
    if eq_literal(name, "confused") {
        return Some(literal_string("\u{1F615}"));
    }
    if eq_literal(name, "neutral_face") {
        return Some(literal_string("\u{1F610}"));
    }
    if eq_literal(name, "expressionless") {
        return Some(literal_string("\u{1F611}"));
    }
    if eq_literal(name, "unamused") {
        return Some(literal_string("\u{1F612}"));
    }
    if eq_literal(name, "rolling_eyes") {
        return Some(literal_string("\u{1F644}"));
    }
    if eq_literal(name, "grimacing") {
        return Some(literal_string("\u{1F62C}"));
    }
    None
}

fn lookup_curated_3(name: &Vec<char>) -> (r: Option<String>)
    ensures
        option_view(r) == curated_emoji_3(name@),
{
    if eq_literal(name, "relieved") {
        return Some(literal_string("\u{1F60C}"));
    }
    if eq_literal(name, "pensive") {
        return Some(literal_string("\u{1F614}"));
    }
    if eq_literal(name, "sleepy") {
        return Some(literal_string("\u{1F62A}"));
    }
    if eq_literal(name, "sleeping") {
        return Some(literal_string("\u{1F634}"));
    }
    if eq_literal(name, "mask") {
        return Some(literal_string("\u{1F637}"));
    }
    if eq_literal(name, "nerd_face") {
        return Some(literal_string("\u{1F913}"));
    }
    if eq_literal(name, "worried") {
        return Some(literal_string("\u{1F61F}"));
    }
    if eq_literal(name, "flushed") {
        return Some(literal_string("\u{1F633}"));
    }
    if eq_literal(name, "hugs") {
        return Some(literal_string("\u{1F917}"));
    }
    if eq_literal(name, "hugging_face") {
        return Some(literal_string("\u{1F917}"));
    }
    if eq_literal(name, "cowboy_hat_face") {
        return Some(literal_string("\u{1F920}"));
    }
    if eq_literal(name, "clown_face") {
        return Some(literal_string("\u{1F921}"));
    }
    if eq_literal(name, "shushing_face") {
        return Some(literal_string("\u{1F92B}"));
    }
    if eq_literal(name, "exploding_head") {
        return Some(literal_string("\u{1F92F}"));
    }
    if eq_literal(name, "partying_face") {
        return Some(literal_string("\u{1F973}"));
    }
    if eq_literal(name, "star_struck") {
        return Some(literal_string("\u{1F929}"));
    }
    if eq_literal(name, "money_mouth_face") {
        return Some(literal_string("\u{1F911}"));
    }
    if eq_literal(name, "zany_face") {
        return Some(literal_string("\u{1F92A}"));
    }
    if eq_literal(name, "skull") {
        return Some(literal_string("\u{1F480}"));
    }
    if eq_literal(name, "ghost") {
        return Some(literal_string("\u{1F47B}"));
    }
    if eq_literal(name, "alien") {
        return Some(literal_string("\u{1F47D}"));
    }
    if eq_literal(name, "robot_face") {
        return Some(literal_string("\u{1F916}"));
    }
    if eq_literal(name, "poop") {
        return Some(literal_string("\u{1F4A9}"));
    }
    if eq_literal(name, "hankey") {
        return Some(literal_string("\u{1F4A9}"));
    }
    if eq_literal(name, "see_no_evil") {
        return Some(literal_string("\u{1F648}"));
    }
    None
}

fn lookup_curated_4(name: &Vec<char>) -> (r: Option<String>)
    ensures
        option_view(r) == curated_emoji_4(name@),
{
    if eq_literal(name, "hear_no_evil") {
        return Some(literal_string("\u{1F649}"));
    }
    if eq_literal(name, "speak_no_evil") {
        return Some(literal_string("\u{1F64A}"));
    }
    if eq_literal(name, "kiss") {
        return Some(literal_string("\u{1F48B}"));
    }
    if eq_literal(name, "cupid") {
        return Some(literal_string("\u{1F498}"));
    }
    if eq_literal(name, "sparkling_heart") {
        return Some(literal_string("\u{1F496}"));
    }
    if eq_literal(name, "broken_heart") {
        return Some(literal_string("\u{1F494}"));
    }
    if eq_literal(name, "orange_heart") {
        return Some(literal_string("\u{1F9E1}"));
    }
    if eq_literal(name, "yellow_heart") {
        return Some(literal_string("\u{1F49B}"));
    }
    if eq_literal(name, "green_heart") {
        return Some(literal_string("\u{1F49A}"));
    }
    if eq_literal(name, "blue_heart") {
        return Some(literal_string("\u{1F499}"));
    }
    if eq_literal(name, "purple_heart") {
        return Some(literal_string("\u{1F49C}"));
    }
    if eq_literal(name, "black_heart") {
        return Some(literal_string("\u{1F5A4}"));
    }
    if eq_literal(name, "white_heart") {
        return Some(literal_string("\u{1F90D}"));
    }
    if eq_literal(name, "two_hearts") {
        return Some(literal_string("\u{1F495}"));
    }
    if eq_literal(name, "revolving_hearts") {
        return Some(literal_string("\u{1F49E}"));
    }
    if eq_literal(name, "check") {
        return Some(literal_string("\u{2705}"));
    }
    if eq_literal(name, "white_check_mark") {
        return Some(literal_string("\u{2705}"));
    }
    if eq_literal(name, "x") {
        return Some(literal_string("\u{274C}"));
    }
    if eq_literal(name, "heavy_check_mark") {
        return Some(literal_string("\u{2714}\u{FE0F}"));
    }
    if eq_literal(name, "warning") {
        return Some(literal_string("\u{26A0}\u{FE0F}"));
    }
    if eq_literal(name, "no_entry") {
        return Some(literal_string("\u{26D4}"));
    }
    if eq_literal(name, "question") {
        return Some(literal_string("\u{2753}"));
    }
    if eq_literal(name, "exclamation") {
        return Some(literal_string("\u{2757}"));
    }
    None
}
} // verus!
