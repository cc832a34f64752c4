//! The dictionary: 256 short lowercase words in ascending order, one for each byte value.
//!
//! The table is fixed when the library is built. That it is well formed (256 entries, each
//! one to six lowercase letters, in strictly ascending order and so without duplicates) is
//! proved here once, word by word, so that nothing has to be checked when the library runs:
//! a table that breaks the rule does not verify.

use crate::order::{lemma_precedes_asymmetric, lemma_precedes_transitive, precedes, rises_at};
use vstd::prelude::*;
use vstd::utf8::{encode_utf8, is_ascii_chars, is_ascii_chars_encode_utf8};

verus! {

/// The word for byte value `b` stands at position `b`.
pub const WORDS: [&'static str; 256] = [
    "able", "about", "acid", "age", "ant", "apple", "arch", "area",
    "arm", "army", "atom", "aunt", "baby", "back", "bag", "ball",
    "band", "barn", "base", "bath", "beach", "bean", "bear", "bed",
    "belt", "bench", "bird", "blue", "boat", "body", "bone", "boot",
    "bowl", "box", "boy", "brain", "bread", "brick", "bus", "cake",
    "calf", "camp", "candy", "cap", "car", "card", "cat", "cave",
    "chair", "chalk", "cheese", "chin", "city", "clock", "cloud", "coat",
    "coin", "comb", "cook", "corn", "crab", "crow", "cup", "dark",
    "day", "deer", "desk", "dish", "doll", "door", "dress", "drum",
    "duck", "dust", "eagle", "earth", "east", "egg", "elbow", "engine",
    "eye", "face", "feet", "fern", "field", "fig", "film", "fire",
    "fish", "flag", "fog", "food", "foot", "fork", "fox", "frog",
    "fruit", "gate", "gift", "girl", "glass", "glove", "goat", "gold",
    "grass", "green", "hair", "hall", "hand", "hat", "head", "hill",
    "home", "horse", "house", "ice", "ink", "iron", "jar", "jeep",
    "jet", "juice", "jump", "key", "king", "kite", "lake", "lamp",
    "leaf", "leg", "lemon", "lime", "lion", "lunch", "map", "mask",
    "meal", "melon", "milk", "mint", "mouse", "mud", "nail", "neck",
    "nest", "net", "north", "nose", "oak", "ocean", "oil", "olive",
    "onion", "orange", "oven", "page", "paint", "palm", "pan", "park",
    "path", "pea", "pear", "pen", "pie", "pig", "pine", "pink",
    "pipe", "plum", "pond", "pony", "pool", "potato", "power", "price",
    "pump", "queen", "quiet", "rabbit", "rail", "ranch", "red", "ring",
    "robin", "roof", "root", "sail", "salt", "scale", "school", "sea",
    "seed", "shelf", "ship", "shoe", "shop", "sink", "skin", "sled",
    "sleep", "snail", "snow", "sock", "soil", "song", "south", "spoon",
    "square", "stair", "stamp", "star", "stem", "stick", "stone", "storm",
    "stove", "street", "sugar", "suit", "sun", "swim", "table", "tail",
    "tea", "team", "tent", "tide", "tiger", "time", "toast", "toe",
    "top", "tower", "town", "track", "train", "tray", "truck", "true",
    "trunk", "tulip", "turtle", "uncle", "van", "vest", "voice", "wall",
    "water", "west", "wheel", "wing", "wolf", "wool", "year", "zoo",
];

/// The dictionary as a sequence of 256 words.
pub open spec fn dictionary() -> Seq<&'static str> {
    WORDS@
}

/// The characters of the word for byte value `b`.
pub open spec fn word_at(b: u8) -> Seq<char> {
    dictionary()[b as int]@
}

/// A word is one to six lowercase ASCII letters.
pub open spec fn is_word(w: Seq<char>) -> bool {
    &&& 1 <= w.len() <= 6
    &&& forall|j: int| 0 <= j < w.len() ==> 'a' <= #[trigger] w[j] <= 'z'
}

/// The bytes of a sequence of ASCII characters, one byte for each character.
pub open spec fn ascii_bytes(w: Seq<char>) -> Seq<u8> {
    Seq::new(w.len(), |j: int| w[j] as u8)
}

/// A table is well formed when it holds 256 words and each comes strictly before the next
/// ones in the order of their bytes, so that no word occurs twice.
pub open spec fn well_formed(table: Seq<&'static str>) -> bool {
    &&& table.len() == 256
    &&& forall|i: int| 0 <= i < 256 ==> #[trigger] is_word(table[i]@)
    &&& forall|i: int, j: int|
        0 <= i < j < 256 ==> #[trigger] precedes(encode_utf8(table[i]@), encode_utf8(table[j]@))
}

/// A word is encoded in UTF-8 as one byte for each of its letters.
pub proof fn lemma_word_bytes(w: Seq<char>)
    requires
        is_word(w),
    ensures
        is_ascii_chars(w),
        encode_utf8(w) == ascii_bytes(w),
{
    assert(is_ascii_chars(w));
    is_ascii_chars_encode_utf8(w);
    assert(encode_utf8(w) =~= ascii_bytes(w));
}

/// Position `i` holds a word, and it comes before the word at position `i + 1`.
spec fn settled(i: int) -> bool {
    &&& is_word(dictionary()[i]@)
    &&& i < 255 ==> precedes(ascii_bytes(dictionary()[i]@), ascii_bytes(dictionary()[i + 1]@))
}

/// The words at positions 0 to 31 are words, and each comes before the next.
proof fn lemma_page_0()
    ensures
        forall|i: int| 0 <= i < 32 ==> #[trigger] settled(i),
{
    reveal_strlit("able");
    reveal_strlit("about");
    reveal_strlit("acid");
    reveal_strlit("age");
    reveal_strlit("ant");
    reveal_strlit("apple");
    reveal_strlit("arch");
    reveal_strlit("area");
    reveal_strlit("arm");
    reveal_strlit("army");
    reveal_strlit("atom");
    reveal_strlit("aunt");
    reveal_strlit("baby");
    reveal_strlit("back");
    reveal_strlit("bag");
    reveal_strlit("ball");
    reveal_strlit("band");
    reveal_strlit("barn");
    reveal_strlit("base");
    reveal_strlit("bath");
    reveal_strlit("beach");
    reveal_strlit("bean");
    reveal_strlit("bear");
    reveal_strlit("bed");
    reveal_strlit("belt");
    reveal_strlit("bench");
    reveal_strlit("bird");
    reveal_strlit("blue");
    reveal_strlit("boat");
    reveal_strlit("body");
    reveal_strlit("bone");
    reveal_strlit("boot");
    reveal_strlit("bowl");
    assert(rises_at(ascii_bytes(WORDS@[0]@), ascii_bytes(WORDS@[1]@), 2));
    assert(rises_at(ascii_bytes(WORDS@[1]@), ascii_bytes(WORDS@[2]@), 1));
    assert(rises_at(ascii_bytes(WORDS@[2]@), ascii_bytes(WORDS@[3]@), 1));
    assert(rises_at(ascii_bytes(WORDS@[3]@), ascii_bytes(WORDS@[4]@), 1));
    assert(rises_at(ascii_bytes(WORDS@[4]@), ascii_bytes(WORDS@[5]@), 1));
    assert(rises_at(ascii_bytes(WORDS@[5]@), ascii_bytes(WORDS@[6]@), 1));
    assert(rises_at(ascii_bytes(WORDS@[6]@), ascii_bytes(WORDS@[7]@), 2));
    assert(rises_at(ascii_bytes(WORDS@[7]@), ascii_bytes(WORDS@[8]@), 2));
    assert(rises_at(ascii_bytes(WORDS@[8]@), ascii_bytes(WORDS@[9]@), 3));
    assert(rises_at(ascii_bytes(WORDS@[9]@), ascii_bytes(WORDS@[10]@), 1));
    assert(rises_at(ascii_bytes(WORDS@[10]@), ascii_bytes(WORDS@[11]@), 1));
    assert(rises_at(ascii_bytes(WORDS@[11]@), ascii_bytes(WORDS@[12]@), 0));
    assert(rises_at(ascii_bytes(WORDS@[12]@), ascii_bytes(WORDS@[13]@), 2));
    assert(rises_at(ascii_bytes(WORDS@[13]@), ascii_bytes(WORDS@[14]@), 2));
    assert(rises_at(ascii_bytes(WORDS@[14]@), ascii_bytes(WORDS@[15]@), 2));
    assert(rises_at(ascii_bytes(WORDS@[15]@), ascii_bytes(WORDS@[16]@), 2));
    assert(rises_at(ascii_bytes(WORDS@[16]@), ascii_bytes(WORDS@[17]@), 2));
    assert(rises_at(ascii_bytes(WORDS@[17]@), ascii_bytes(WORDS@[18]@), 2));
    assert(rises_at(ascii_bytes(WORDS@[18]@), ascii_bytes(WORDS@[19]@), 2));
    assert(rises_at(ascii_bytes(WORDS@[19]@), ascii_bytes(WORDS@[20]@), 1));
    assert(rises_at(ascii_bytes(WORDS@[20]@), ascii_bytes(WORDS@[21]@), 3));
    assert(rises_at(ascii_bytes(WORDS@[21]@), ascii_bytes(WORDS@[22]@), 3));
    assert(rises_at(ascii_bytes(WORDS@[22]@), ascii_bytes(WORDS@[23]@), 2));
    assert(rises_at(ascii_bytes(WORDS@[23]@), ascii_bytes(WORDS@[24]@), 2));
    assert(rises_at(ascii_bytes(WORDS@[24]@), ascii_bytes(WORDS@[25]@), 2));
    assert(rises_at(ascii_bytes(WORDS@[25]@), ascii_bytes(WORDS@[26]@), 1));
    assert(rises_at(ascii_bytes(WORDS@[26]@), ascii_bytes(WORDS@[27]@), 1));
    assert(rises_at(ascii_bytes(WORDS@[27]@), ascii_bytes(WORDS@[28]@), 1));
    assert(rises_at(ascii_bytes(WORDS@[28]@), ascii_bytes(WORDS@[29]@), 2));
    assert(rises_at(ascii_bytes(WORDS@[29]@), ascii_bytes(WORDS@[30]@), 2));
    assert(rises_at(ascii_bytes(WORDS@[30]@), ascii_bytes(WORDS@[31]@), 2));
    assert(rises_at(ascii_bytes(WORDS@[31]@), ascii_bytes(WORDS@[32]@), 2));
}

/// The words at positions 32 to 63 are words, and each comes before the next.
proof fn lemma_page_1()
    ensures
        forall|i: int| 32 <= i < 64 ==> #[trigger] settled(i),
{
    reveal_strlit("bowl");
    reveal_strlit("box");
    reveal_strlit("boy");
    reveal_strlit("brain");
    reveal_strlit("bread");
    reveal_strlit("brick");
    reveal_strlit("bus");
    reveal_strlit("cake");
    reveal_strlit("calf");
    reveal_strlit("camp");
    reveal_strlit("candy");
    reveal_strlit("cap");
    reveal_strlit("car");
    reveal_strlit("card");
    reveal_strlit("cat");
    reveal_strlit("cave");
    reveal_strlit("chair");
    reveal_strlit("chalk");
    reveal_strlit("cheese");
    reveal_strlit("chin");
    reveal_strlit("city");
    reveal_strlit("clock");
    reveal_strlit("cloud");
    reveal_strlit("coat");
    reveal_strlit("coin");
    reveal_strlit("comb");
    reveal_strlit("cook");
    reveal_strlit("corn");
    reveal_strlit("crab");
    reveal_strlit("crow");
    reveal_strlit("cup");
    reveal_strlit("dark");
    reveal_strlit("day");
    assert(rises_at(ascii_bytes(WORDS@[32]@), ascii_bytes(WORDS@[33]@), 2));
    assert(rises_at(ascii_bytes(WORDS@[33]@), ascii_bytes(WORDS@[34]@), 2));
    assert(rises_at(ascii_bytes(WORDS@[34]@), ascii_bytes(WORDS@[35]@), 1));
    assert(rises_at(ascii_bytes(WORDS@[35]@), ascii_bytes(WORDS@[36]@), 2));
    assert(rises_at(ascii_bytes(WORDS@[36]@), ascii_bytes(WORDS@[37]@), 2));
    assert(rises_at(ascii_bytes(WORDS@[37]@), ascii_bytes(WORDS@[38]@), 1));
    assert(rises_at(ascii_bytes(WORDS@[38]@), ascii_bytes(WORDS@[39]@), 0));
    assert(rises_at(ascii_bytes(WORDS@[39]@), ascii_bytes(WORDS@[40]@), 2));
    assert(rises_at(ascii_bytes(WORDS@[40]@), ascii_bytes(WORDS@[41]@), 2));
    assert(rises_at(ascii_bytes(WORDS@[41]@), ascii_bytes(WORDS@[42]@), 2));
    assert(rises_at(ascii_bytes(WORDS@[42]@), ascii_bytes(WORDS@[43]@), 2));
    assert(rises_at(ascii_bytes(WORDS@[43]@), ascii_bytes(WORDS@[44]@), 2));
    assert(rises_at(ascii_bytes(WORDS@[44]@), ascii_bytes(WORDS@[45]@), 3));
    assert(rises_at(ascii_bytes(WORDS@[45]@), ascii_bytes(WORDS@[46]@), 2));
    assert(rises_at(ascii_bytes(WORDS@[46]@), ascii_bytes(WORDS@[47]@), 2));
    assert(rises_at(ascii_bytes(WORDS@[47]@), ascii_bytes(WORDS@[48]@), 1));
    assert(rises_at(ascii_bytes(WORDS@[48]@), ascii_bytes(WORDS@[49]@), 3));
    assert(rises_at(ascii_bytes(WORDS@[49]@), ascii_bytes(WORDS@[50]@), 2));
    assert(rises_at(ascii_bytes(WORDS@[50]@), ascii_bytes(WORDS@[51]@), 2));
    assert(rises_at(ascii_bytes(WORDS@[51]@), ascii_bytes(WORDS@[52]@), 1));
    assert(rises_at(ascii_bytes(WORDS@[52]@), ascii_bytes(WORDS@[53]@), 1));
    assert(rises_at(ascii_bytes(WORDS@[53]@), ascii_bytes(WORDS@[54]@), 3));
    assert(rises_at(ascii_bytes(WORDS@[54]@), ascii_bytes(WORDS@[55]@), 1));
    assert(rises_at(ascii_bytes(WORDS@[55]@), ascii_bytes(WORDS@[56]@), 2));
    assert(rises_at(ascii_bytes(WORDS@[56]@), ascii_bytes(WORDS@[57]@), 2));
    assert(rises_at(ascii_bytes(WORDS@[57]@), ascii_bytes(WORDS@[58]@), 2));
    assert(rises_at(ascii_bytes(WORDS@[58]@), ascii_bytes(WORDS@[59]@), 2));
    assert(rises_at(ascii_bytes(WORDS@[59]@), ascii_bytes(WORDS@[60]@), 1));
    assert(rises_at(ascii_bytes(WORDS@[60]@), ascii_bytes(WORDS@[61]@), 2));
    assert(rises_at(ascii_bytes(WORDS@[61]@), ascii_bytes(WORDS@[62]@), 1));
    assert(rises_at(ascii_bytes(WORDS@[62]@), ascii_bytes(WORDS@[63]@), 0));
    assert(rises_at(ascii_bytes(WORDS@[63]@), ascii_bytes(WORDS@[64]@), 2));
}

/// The words at positions 64 to 95 are words, and each comes before the next.
proof fn lemma_page_2()
    ensures
        forall|i: int| 64 <= i < 96 ==> #[trigger] settled(i),
{
    reveal_strlit("day");
    reveal_strlit("deer");
    reveal_strlit("desk");
    reveal_strlit("dish");
    reveal_strlit("doll");
    reveal_strlit("door");
    reveal_strlit("dress");
    reveal_strlit("drum");
    reveal_strlit("duck");
    reveal_strlit("dust");
    reveal_strlit("eagle");
    reveal_strlit("earth");
    reveal_strlit("east");
    reveal_strlit("egg");
    reveal_strlit("elbow");
    reveal_strlit("engine");
    reveal_strlit("eye");
    reveal_strlit("face");
    reveal_strlit("feet");
    reveal_strlit("fern");
    reveal_strlit("field");
    reveal_strlit("fig");
    reveal_strlit("film");
    reveal_strlit("fire");
    reveal_strlit("fish");
    reveal_strlit("flag");
    reveal_strlit("fog");
    reveal_strlit("food");
    reveal_strlit("foot");
    reveal_strlit("fork");
    reveal_strlit("fox");
    reveal_strlit("frog");
    reveal_strlit("fruit");
    assert(rises_at(ascii_bytes(WORDS@[64]@), ascii_bytes(WORDS@[65]@), 1));
    assert(rises_at(ascii_bytes(WORDS@[65]@), ascii_bytes(WORDS@[66]@), 2));
    assert(rises_at(ascii_bytes(WORDS@[66]@), ascii_bytes(WORDS@[67]@), 1));
    assert(rises_at(ascii_bytes(WORDS@[67]@), ascii_bytes(WORDS@[68]@), 1));
    assert(rises_at(ascii_bytes(WORDS@[68]@), ascii_bytes(WORDS@[69]@), 2));
    assert(rises_at(ascii_bytes(WORDS@[69]@), ascii_bytes(WORDS@[70]@), 1));
    assert(rises_at(ascii_bytes(WORDS@[70]@), ascii_bytes(WORDS@[71]@), 2));
    assert(rises_at(ascii_bytes(WORDS@[71]@), ascii_bytes(WORDS@[72]@), 1));
    assert(rises_at(ascii_bytes(WORDS@[72]@), ascii_bytes(WORDS@[73]@), 2));
    assert(rises_at(ascii_bytes(WORDS@[73]@), ascii_bytes(WORDS@[74]@), 0));
    assert(rises_at(ascii_bytes(WORDS@[74]@), ascii_bytes(WORDS@[75]@), 2));
    assert(rises_at(ascii_bytes(WORDS@[75]@), ascii_bytes(WORDS@[76]@), 2));
    assert(rises_at(ascii_bytes(WORDS@[76]@), ascii_bytes(WORDS@[77]@), 1));
    assert(rises_at(ascii_bytes(WORDS@[77]@), ascii_bytes(WORDS@[78]@), 1));
    assert(rises_at(ascii_bytes(WORDS@[78]@), ascii_bytes(WORDS@[79]@), 1));
    assert(rises_at(ascii_bytes(WORDS@[79]@), ascii_bytes(WORDS@[80]@), 1));
    assert(rises_at(ascii_bytes(WORDS@[80]@), ascii_bytes(WORDS@[81]@), 0));
    assert(rises_at(ascii_bytes(WORDS@[81]@), ascii_bytes(WORDS@[82]@), 1));
    assert(rises_at(ascii_bytes(WORDS@[82]@), ascii_bytes(WORDS@[83]@), 2));
    assert(rises_at(ascii_bytes(WORDS@[83]@), ascii_bytes(WORDS@[84]@), 1));
    assert(rises_at(ascii_bytes(WORDS@[84]@), ascii_bytes(WORDS@[85]@), 2));
    assert(rises_at(ascii_bytes(WORDS@[85]@), ascii_bytes(WORDS@[86]@), 2));
    assert(rises_at(ascii_bytes(WORDS@[86]@), ascii_bytes(WORDS@[87]@), 2));
    assert(rises_at(ascii_bytes(WORDS@[87]@), ascii_bytes(WORDS@[88]@), 2));
    assert(rises_at(ascii_bytes(WORDS@[88]@), ascii_bytes(WORDS@[89]@), 1));
    assert(rises_at(ascii_bytes(WORDS@[89]@), ascii_bytes(WORDS@[90]@), 1));
    assert(rises_at(ascii_bytes(WORDS@[90]@), ascii_bytes(WORDS@[91]@), 2));
    assert(rises_at(ascii_bytes(WORDS@[91]@), ascii_bytes(WORDS@[92]@), 3));
    assert(rises_at(ascii_bytes(WORDS@[92]@), ascii_bytes(WORDS@[93]@), 2));
    assert(rises_at(ascii_bytes(WORDS@[93]@), ascii_bytes(WORDS@[94]@), 2));
    assert(rises_at(ascii_bytes(WORDS@[94]@), ascii_bytes(WORDS@[95]@), 1));
    assert(rises_at(ascii_bytes(WORDS@[95]@), ascii_bytes(WORDS@[96]@), 2));
}

/// The words at positions 96 to 127 are words, and each comes before the next.
proof fn lemma_page_3()
    ensures
        forall|i: int| 96 <= i < 128 ==> #[trigger] settled(i),
{
    reveal_strlit("fruit");
    reveal_strlit("gate");
    reveal_strlit("gift");
    reveal_strlit("girl");
    reveal_strlit("glass");
    reveal_strlit("glove");
    reveal_strlit("goat");
    reveal_strlit("gold");
    reveal_strlit("grass");
    reveal_strlit("green");
    reveal_strlit("hair");
    reveal_strlit("hall");
    reveal_strlit("hand");
    reveal_strlit("hat");
    reveal_strlit("head");
    reveal_strlit("hill");
    reveal_strlit("home");
    reveal_strlit("horse");
    reveal_strlit("house");
    reveal_strlit("ice");
    reveal_strlit("ink");
    reveal_strlit("iron");
    reveal_strlit("jar");
    reveal_strlit("jeep");
    reveal_strlit("jet");
    reveal_strlit("juice");
    reveal_strlit("jump");
    reveal_strlit("key");
    reveal_strlit("king");
    reveal_strlit("kite");
    reveal_strlit("lake");
    reveal_strlit("lamp");
    reveal_strlit("leaf");
    assert(rises_at(ascii_bytes(WORDS@[96]@), ascii_bytes(WORDS@[97]@), 0));
    assert(rises_at(ascii_bytes(WORDS@[97]@), ascii_bytes(WORDS@[98]@), 1));
    assert(rises_at(ascii_bytes(WORDS@[98]@), ascii_bytes(WORDS@[99]@), 2));
    assert(rises_at(ascii_bytes(WORDS@[99]@), ascii_bytes(WORDS@[100]@), 1));
    assert(rises_at(ascii_bytes(WORDS@[100]@), ascii_bytes(WORDS@[101]@), 2));
    assert(rises_at(ascii_bytes(WORDS@[101]@), ascii_bytes(WORDS@[102]@), 1));
    assert(rises_at(ascii_bytes(WORDS@[102]@), ascii_bytes(WORDS@[103]@), 2));
    assert(rises_at(ascii_bytes(WORDS@[103]@), ascii_bytes(WORDS@[104]@), 1));
    assert(rises_at(ascii_bytes(WORDS@[104]@), ascii_bytes(WORDS@[105]@), 2));
    assert(rises_at(ascii_bytes(WORDS@[105]@), ascii_bytes(WORDS@[106]@), 0));
    assert(rises_at(ascii_bytes(WORDS@[106]@), ascii_bytes(WORDS@[107]@), 2));
    assert(rises_at(ascii_bytes(WORDS@[107]@), ascii_bytes(WORDS@[108]@), 2));
    assert(rises_at(ascii_bytes(WORDS@[108]@), ascii_bytes(WORDS@[109]@), 2));
    assert(rises_at(ascii_bytes(WORDS@[109]@), ascii_bytes(WORDS@[110]@), 1));
    assert(rises_at(ascii_bytes(WORDS@[110]@), ascii_bytes(WORDS@[111]@), 1));
    assert(rises_at(ascii_bytes(WORDS@[111]@), ascii_bytes(WORDS@[112]@), 1));
    assert(rises_at(ascii_bytes(WORDS@[112]@), ascii_bytes(WORDS@[113]@), 2));
    assert(rises_at(ascii_bytes(WORDS@[113]@), ascii_bytes(WORDS@[114]@), 2));
    assert(rises_at(ascii_bytes(WORDS@[114]@), ascii_bytes(WORDS@[115]@), 0));
    assert(rises_at(ascii_bytes(WORDS@[115]@), ascii_bytes(WORDS@[116]@), 1));
    assert(rises_at(ascii_bytes(WORDS@[116]@), ascii_bytes(WORDS@[117]@), 1));
    assert(rises_at(ascii_bytes(WORDS@[117]@), ascii_bytes(WORDS@[118]@), 0));
    assert(rises_at(ascii_bytes(WORDS@[118]@), ascii_bytes(WORDS@[119]@), 1));
    assert(rises_at(ascii_bytes(WORDS@[119]@), ascii_bytes(WORDS@[120]@), 2));
    assert(rises_at(ascii_bytes(WORDS@[120]@), ascii_bytes(WORDS@[121]@), 1));
    assert(rises_at(ascii_bytes(WORDS@[121]@), ascii_bytes(WORDS@[122]@), 2));
    assert(rises_at(ascii_bytes(WORDS@[122]@), ascii_bytes(WORDS@[123]@), 0));
    assert(rises_at(ascii_bytes(WORDS@[123]@), ascii_bytes(WORDS@[124]@), 1));
    assert(rises_at(ascii_bytes(WORDS@[124]@), ascii_bytes(WORDS@[125]@), 2));
    assert(rises_at(ascii_bytes(WORDS@[125]@), ascii_bytes(WORDS@[126]@), 0));
    assert(rises_at(ascii_bytes(WORDS@[126]@), ascii_bytes(WORDS@[127]@), 2));
    assert(rises_at(ascii_bytes(WORDS@[127]@), ascii_bytes(WORDS@[128]@), 1));
}

/// The words at positions 128 to 159 are words, and each comes before the next.
proof fn lemma_page_4()
    ensures
        forall|i: int| 128 <= i < 160 ==> #[trigger] settled(i),
{
    reveal_strlit("leaf");
    reveal_strlit("leg");
    reveal_strlit("lemon");
    reveal_strlit("lime");
    reveal_strlit("lion");
    reveal_strlit("lunch");
    reveal_strlit("map");
    reveal_strlit("mask");
    reveal_strlit("meal");
    reveal_strlit("melon");
    reveal_strlit("milk");
    reveal_strlit("mint");
    reveal_strlit("mouse");
    reveal_strlit("mud");
    reveal_strlit("nail");
    reveal_strlit("neck");
    reveal_strlit("nest");
    reveal_strlit("net");
    reveal_strlit("north");
    reveal_strlit("nose");
    reveal_strlit("oak");
    reveal_strlit("ocean");
    reveal_strlit("oil");
    reveal_strlit("olive");
    reveal_strlit("onion");
    reveal_strlit("orange");
    reveal_strlit("oven");
    reveal_strlit("page");
    reveal_strlit("paint");
    reveal_strlit("palm");
    reveal_strlit("pan");
    reveal_strlit("park");
    reveal_strlit("path");
    assert(rises_at(ascii_bytes(WORDS@[128]@), ascii_bytes(WORDS@[129]@), 2));
    assert(rises_at(ascii_bytes(WORDS@[129]@), ascii_bytes(WORDS@[130]@), 2));
    assert(rises_at(ascii_bytes(WORDS@[130]@), ascii_bytes(WORDS@[131]@), 1));
    assert(rises_at(ascii_bytes(WORDS@[131]@), ascii_bytes(WORDS@[132]@), 2));
    assert(rises_at(ascii_bytes(WORDS@[132]@), ascii_bytes(WORDS@[133]@), 1));
    assert(rises_at(ascii_bytes(WORDS@[133]@), ascii_bytes(WORDS@[134]@), 0));
    assert(rises_at(ascii_bytes(WORDS@[134]@), ascii_bytes(WORDS@[135]@), 2));
    assert(rises_at(ascii_bytes(WORDS@[135]@), ascii_bytes(WORDS@[136]@), 1));
    assert(rises_at(ascii_bytes(WORDS@[136]@), ascii_bytes(WORDS@[137]@), 2));
    assert(rises_at(ascii_bytes(WORDS@[137]@), ascii_bytes(WORDS@[138]@), 1));
    assert(rises_at(ascii_bytes(WORDS@[138]@), ascii_bytes(WORDS@[139]@), 2));
    assert(rises_at(ascii_bytes(WORDS@[139]@), ascii_bytes(WORDS@[140]@), 1));
    assert(rises_at(ascii_bytes(WORDS@[140]@), ascii_bytes(WORDS@[141]@), 1));
    assert(rises_at(ascii_bytes(WORDS@[141]@), ascii_bytes(WORDS@[142]@), 0));
    assert(rises_at(ascii_bytes(WORDS@[142]@), ascii_bytes(WORDS@[143]@), 1));
    assert(rises_at(ascii_bytes(WORDS@[143]@), ascii_bytes(WORDS@[144]@), 2));
    assert(rises_at(ascii_bytes(WORDS@[144]@), ascii_bytes(WORDS@[145]@), 2));
    assert(rises_at(ascii_bytes(WORDS@[145]@), ascii_bytes(WORDS@[146]@), 1));
    assert(rises_at(ascii_bytes(WORDS@[146]@), ascii_bytes(WORDS@[147]@), 2));
    assert(rises_at(ascii_bytes(WORDS@[147]@), ascii_bytes(WORDS@[148]@), 0));
    assert(rises_at(ascii_bytes(WORDS@[148]@), ascii_bytes(WORDS@[149]@), 1));
    assert(rises_at(ascii_bytes(WORDS@[149]@), ascii_bytes(WORDS@[150]@), 1));
    assert(rises_at(ascii_bytes(WORDS@[150]@), ascii_bytes(WORDS@[151]@), 1));
    assert(rises_at(ascii_bytes(WORDS@[151]@), ascii_bytes(WORDS@[152]@), 1));
    assert(rises_at(ascii_bytes(WORDS@[152]@), ascii_bytes(WORDS@[153]@), 1));
    assert(rises_at(ascii_bytes(WORDS@[153]@), ascii_bytes(WORDS@[154]@), 1));
    assert(rises_at(ascii_bytes(WORDS@[154]@), ascii_bytes(WORDS@[155]@), 0));
    assert(rises_at(ascii_bytes(WORDS@[155]@), ascii_bytes(WORDS@[156]@), 2));
    assert(rises_at(ascii_bytes(WORDS@[156]@), ascii_bytes(WORDS@[157]@), 2));
    assert(rises_at(ascii_bytes(WORDS@[157]@), ascii_bytes(WORDS@[158]@), 2));
    assert(rises_at(ascii_bytes(WORDS@[158]@), ascii_bytes(WORDS@[159]@), 2));
    assert(rises_at(ascii_bytes(WORDS@[159]@), ascii_bytes(WORDS@[160]@), 2));
}

/// The words at positions 160 to 191 are words, and each comes before the next.
proof fn lemma_page_5()
    ensures
        forall|i: int| 160 <= i < 192 ==> #[trigger] settled(i),
{
    reveal_strlit("path");
    reveal_strlit("pea");
    reveal_strlit("pear");
    reveal_strlit("pen");
    reveal_strlit("pie");
    reveal_strlit("pig");
    reveal_strlit("pine");
    reveal_strlit("pink");
    reveal_strlit("pipe");
    reveal_strlit("plum");
    reveal_strlit("pond");
    reveal_strlit("pony");
    reveal_strlit("pool");
    reveal_strlit("potato");
    reveal_strlit("power");
    reveal_strlit("price");
    reveal_strlit("pump");
    reveal_strlit("queen");
    reveal_strlit("quiet");
    reveal_strlit("rabbit");
    reveal_strlit("rail");
    reveal_strlit("ranch");
    reveal_strlit("red");
    reveal_strlit("ring");
    reveal_strlit("robin");
    reveal_strlit("roof");
    reveal_strlit("root");
    reveal_strlit("sail");
    reveal_strlit("salt");
    reveal_strlit("scale");
    reveal_strlit("school");
    reveal_strlit("sea");
    reveal_strlit("seed");
    assert(rises_at(ascii_bytes(WORDS@[160]@), ascii_bytes(WORDS@[161]@), 1));
    assert(rises_at(ascii_bytes(WORDS@[161]@), ascii_bytes(WORDS@[162]@), 3));
    assert(rises_at(ascii_bytes(WORDS@[162]@), ascii_bytes(WORDS@[163]@), 2));
    assert(rises_at(ascii_bytes(WORDS@[163]@), ascii_bytes(WORDS@[164]@), 1));
    assert(rises_at(ascii_bytes(WORDS@[164]@), ascii_bytes(WORDS@[165]@), 2));
    assert(rises_at(ascii_bytes(WORDS@[165]@), ascii_bytes(WORDS@[166]@), 2));
    assert(rises_at(ascii_bytes(WORDS@[166]@), ascii_bytes(WORDS@[167]@), 3));
    assert(rises_at(ascii_bytes(WORDS@[167]@), ascii_bytes(WORDS@[168]@), 2));
    assert(rises_at(ascii_bytes(WORDS@[168]@), ascii_bytes(WORDS@[169]@), 1));
    assert(rises_at(ascii_bytes(WORDS@[169]@), ascii_bytes(WORDS@[170]@), 1));
    assert(rises_at(ascii_bytes(WORDS@[170]@), ascii_bytes(WORDS@[171]@), 3));
    assert(rises_at(ascii_bytes(WORDS@[171]@), ascii_bytes(WORDS@[172]@), 2));
    assert(rises_at(ascii_bytes(WORDS@[172]@), ascii_bytes(WORDS@[173]@), 2));
    assert(rises_at(ascii_bytes(WORDS@[173]@), ascii_bytes(WORDS@[174]@), 2));
    assert(rises_at(ascii_bytes(WORDS@[174]@), ascii_bytes(WORDS@[175]@), 1));
    assert(rises_at(ascii_bytes(WORDS@[175]@), ascii_bytes(WORDS@[176]@), 1));
    assert(rises_at(ascii_bytes(WORDS@[176]@), ascii_bytes(WORDS@[177]@), 0));
    assert(rises_at(ascii_bytes(WORDS@[177]@), ascii_bytes(WORDS@[178]@), 2));
    assert(rises_at(ascii_bytes(WORDS@[178]@), ascii_bytes(WORDS@[179]@), 0));
    assert(rises_at(ascii_bytes(WORDS@[179]@), ascii_bytes(WORDS@[180]@), 2));
    assert(rises_at(ascii_bytes(WORDS@[180]@), ascii_bytes(WORDS@[181]@), 2));
    assert(rises_at(ascii_bytes(WORDS@[181]@), ascii_bytes(WORDS@[182]@), 1));
    assert(rises_at(ascii_bytes(WORDS@[182]@), ascii_bytes(WORDS@[183]@), 1));
    assert(rises_at(ascii_bytes(WORDS@[183]@), ascii_bytes(WORDS@[184]@), 1));
    assert(rises_at(ascii_bytes(WORDS@[184]@), ascii_bytes(WORDS@[185]@), 2));
    assert(rises_at(ascii_bytes(WORDS@[185]@), ascii_bytes(WORDS@[186]@), 3));
    assert(rises_at(ascii_bytes(WORDS@[186]@), ascii_bytes(WORDS@[187]@), 0));
    assert(rises_at(ascii_bytes(WORDS@[187]@), ascii_bytes(WORDS@[188]@), 2));
    assert(rises_at(ascii_bytes(WORDS@[188]@), ascii_bytes(WORDS@[189]@), 1));
    assert(rises_at(ascii_bytes(WORDS@[189]@), ascii_bytes(WORDS@[190]@), 2));
    assert(rises_at(ascii_bytes(WORDS@[190]@), ascii_bytes(WORDS@[191]@), 1));
    assert(rises_at(ascii_bytes(WORDS@[191]@), ascii_bytes(WORDS@[192]@), 2));
}

/// The words at positions 192 to 223 are words, and each comes before the next.
proof fn lemma_page_6()
    ensures
        forall|i: int| 192 <= i < 224 ==> #[trigger] settled(i),
{
    reveal_strlit("seed");
    reveal_strlit("shelf");
    reveal_strlit("ship");
    reveal_strlit("shoe");
    reveal_strlit("shop");
    reveal_strlit("sink");
    reveal_strlit("skin");
    reveal_strlit("sled");
    reveal_strlit("sleep");
    reveal_strlit("snail");
    reveal_strlit("snow");
    reveal_strlit("sock");
    reveal_strlit("soil");
    reveal_strlit("song");
    reveal_strlit("south");
    reveal_strlit("spoon");
    reveal_strlit("square");
    reveal_strlit("stair");
    reveal_strlit("stamp");
    reveal_strlit("star");
    reveal_strlit("stem");
    reveal_strlit("stick");
    reveal_strlit("stone");
    reveal_strlit("storm");
    reveal_strlit("stove");
    reveal_strlit("street");
    reveal_strlit("sugar");
    reveal_strlit("suit");
    reveal_strlit("sun");
    reveal_strlit("swim");
    reveal_strlit("table");
    reveal_strlit("tail");
    reveal_strlit("tea");
    assert(rises_at(ascii_bytes(WORDS@[192]@), ascii_bytes(WORDS@[193]@), 1));
    assert(rises_at(ascii_bytes(WORDS@[193]@), ascii_bytes(WORDS@[194]@), 2));
    assert(rises_at(ascii_bytes(WORDS@[194]@), ascii_bytes(WORDS@[195]@), 2));
    assert(rises_at(ascii_bytes(WORDS@[195]@), ascii_bytes(WORDS@[196]@), 3));
    assert(rises_at(ascii_bytes(WORDS@[196]@), ascii_bytes(WORDS@[197]@), 1));
    assert(rises_at(ascii_bytes(WORDS@[197]@), ascii_bytes(WORDS@[198]@), 1));
    assert(rises_at(ascii_bytes(WORDS@[198]@), ascii_bytes(WORDS@[199]@), 1));
    assert(rises_at(ascii_bytes(WORDS@[199]@), ascii_bytes(WORDS@[200]@), 3));
    assert(rises_at(ascii_bytes(WORDS@[200]@), ascii_bytes(WORDS@[201]@), 1));
    assert(rises_at(ascii_bytes(WORDS@[201]@), ascii_bytes(WORDS@[202]@), 2));
    assert(rises_at(ascii_bytes(WORDS@[202]@), ascii_bytes(WORDS@[203]@), 1));
    assert(rises_at(ascii_bytes(WORDS@[203]@), ascii_bytes(WORDS@[204]@), 2));
    assert(rises_at(ascii_bytes(WORDS@[204]@), ascii_bytes(WORDS@[205]@), 2));
    assert(rises_at(ascii_bytes(WORDS@[205]@), ascii_bytes(WORDS@[206]@), 2));
    assert(rises_at(ascii_bytes(WORDS@[206]@), ascii_bytes(WORDS@[207]@), 1));
    assert(rises_at(ascii_bytes(WORDS@[207]@), ascii_bytes(WORDS@[208]@), 1));
    assert(rises_at(ascii_bytes(WORDS@[208]@), ascii_bytes(WORDS@[209]@), 1));
    assert(rises_at(ascii_bytes(WORDS@[209]@), ascii_bytes(WORDS@[210]@), 3));
    assert(rises_at(ascii_bytes(WORDS@[210]@), ascii_bytes(WORDS@[211]@), 3));
    assert(rises_at(ascii_bytes(WORDS@[211]@), ascii_bytes(WORDS@[212]@), 2));
    assert(rises_at(ascii_bytes(WORDS@[212]@), ascii_bytes(WORDS@[213]@), 2));
    assert(rises_at(ascii_bytes(WORDS@[213]@), ascii_bytes(WORDS@[214]@), 2));
    assert(rises_at(ascii_bytes(WORDS@[214]@), ascii_bytes(WORDS@[215]@), 3));
    assert(rises_at(ascii_bytes(WORDS@[215]@), ascii_bytes(WORDS@[216]@), 3));
    assert(rises_at(ascii_bytes(WORDS@[216]@), ascii_bytes(WORDS@[217]@), 2));
    assert(rises_at(ascii_bytes(WORDS@[217]@), ascii_bytes(WORDS@[218]@), 1));
    assert(rises_at(ascii_bytes(WORDS@[218]@), ascii_bytes(WORDS@[219]@), 2));
    assert(rises_at(ascii_bytes(WORDS@[219]@), ascii_bytes(WORDS@[220]@), 2));
    assert(rises_at(ascii_bytes(WORDS@[220]@), ascii_bytes(WORDS@[221]@), 1));
    assert(rises_at(ascii_bytes(WORDS@[221]@), ascii_bytes(WORDS@[222]@), 0));
    assert(rises_at(ascii_bytes(WORDS@[222]@), ascii_bytes(WORDS@[223]@), 2));
    assert(rises_at(ascii_bytes(WORDS@[223]@), ascii_bytes(WORDS@[224]@), 1));
}

/// The words at positions 224 to 255 are words, and each comes before the next.
proof fn lemma_page_7()
    ensures
        forall|i: int| 224 <= i < 256 ==> #[trigger] settled(i),
{
    reveal_strlit("tea");
    reveal_strlit("team");
    reveal_strlit("tent");
    reveal_strlit("tide");
    reveal_strlit("tiger");
    reveal_strlit("time");
    reveal_strlit("toast");
    reveal_strlit("toe");
    reveal_strlit("top");
    reveal_strlit("tower");
    reveal_strlit("town");
    reveal_strlit("track");
    reveal_strlit("train");
    reveal_strlit("tray");
    reveal_strlit("truck");
    reveal_strlit("true");
    reveal_strlit("trunk");
    reveal_strlit("tulip");
    reveal_strlit("turtle");
    reveal_strlit("uncle");
    reveal_strlit("van");
    reveal_strlit("vest");
    reveal_strlit("voice");
    reveal_strlit("wall");
    reveal_strlit("water");
    reveal_strlit("west");
    reveal_strlit("wheel");
    reveal_strlit("wing");
    reveal_strlit("wolf");
    reveal_strlit("wool");
    reveal_strlit("year");
    reveal_strlit("zoo");
    assert(rises_at(ascii_bytes(WORDS@[224]@), ascii_bytes(WORDS@[225]@), 3));
    assert(rises_at(ascii_bytes(WORDS@[225]@), ascii_bytes(WORDS@[226]@), 2));
    assert(rises_at(ascii_bytes(WORDS@[226]@), ascii_bytes(WORDS@[227]@), 1));
    assert(rises_at(ascii_bytes(WORDS@[227]@), ascii_bytes(WORDS@[228]@), 2));
    assert(rises_at(ascii_bytes(WORDS@[228]@), ascii_bytes(WORDS@[229]@), 2));
    assert(rises_at(ascii_bytes(WORDS@[229]@), ascii_bytes(WORDS@[230]@), 1));
    assert(rises_at(ascii_bytes(WORDS@[230]@), ascii_bytes(WORDS@[231]@), 2));
    assert(rises_at(ascii_bytes(WORDS@[231]@), ascii_bytes(WORDS@[232]@), 2));
    assert(rises_at(ascii_bytes(WORDS@[232]@), ascii_bytes(WORDS@[233]@), 2));
    assert(rises_at(ascii_bytes(WORDS@[233]@), ascii_bytes(WORDS@[234]@), 3));
    assert(rises_at(ascii_bytes(WORDS@[234]@), ascii_bytes(WORDS@[235]@), 1));
    assert(rises_at(ascii_bytes(WORDS@[235]@), ascii_bytes(WORDS@[236]@), 3));
    assert(rises_at(ascii_bytes(WORDS@[236]@), ascii_bytes(WORDS@[237]@), 3));
    assert(rises_at(ascii_bytes(WORDS@[237]@), ascii_bytes(WORDS@[238]@), 2));
    assert(rises_at(ascii_bytes(WORDS@[238]@), ascii_bytes(WORDS@[239]@), 3));
    assert(rises_at(ascii_bytes(WORDS@[239]@), ascii_bytes(WORDS@[240]@), 3));
    assert(rises_at(ascii_bytes(WORDS@[240]@), ascii_bytes(WORDS@[241]@), 1));
    assert(rises_at(ascii_bytes(WORDS@[241]@), ascii_bytes(WORDS@[242]@), 2));
    assert(rises_at(ascii_bytes(WORDS@[242]@), ascii_bytes(WORDS@[243]@), 0));
    assert(rises_at(ascii_bytes(WORDS@[243]@), ascii_bytes(WORDS@[244]@), 0));
    assert(rises_at(ascii_bytes(WORDS@[244]@), ascii_bytes(WORDS@[245]@), 1));
    assert(rises_at(ascii_bytes(WORDS@[245]@), ascii_bytes(WORDS@[246]@), 1));
    assert(rises_at(ascii_bytes(WORDS@[246]@), ascii_bytes(WORDS@[247]@), 0));
    assert(rises_at(ascii_bytes(WORDS@[247]@), ascii_bytes(WORDS@[248]@), 2));
    assert(rises_at(ascii_bytes(WORDS@[248]@), ascii_bytes(WORDS@[249]@), 1));
    assert(rises_at(ascii_bytes(WORDS@[249]@), ascii_bytes(WORDS@[250]@), 1));
    assert(rises_at(ascii_bytes(WORDS@[250]@), ascii_bytes(WORDS@[251]@), 1));
    assert(rises_at(ascii_bytes(WORDS@[251]@), ascii_bytes(WORDS@[252]@), 1));
    assert(rises_at(ascii_bytes(WORDS@[252]@), ascii_bytes(WORDS@[253]@), 2));
    assert(rises_at(ascii_bytes(WORDS@[253]@), ascii_bytes(WORDS@[254]@), 0));
    assert(rises_at(ascii_bytes(WORDS@[254]@), ascii_bytes(WORDS@[255]@), 0));
}

/// Every position of the dictionary is settled.
proof fn lemma_settled(i: int)
    requires
        0 <= i < 256,
    ensures
        settled(i),
{
    if i < 32 {
        lemma_page_0();
    } else if i < 64 {
        lemma_page_1();
    } else if i < 96 {
        lemma_page_2();
    } else if i < 128 {
        lemma_page_3();
    } else if i < 160 {
        lemma_page_4();
    } else if i < 192 {
        lemma_page_5();
    } else if i < 224 {
        lemma_page_6();
    } else {
        lemma_page_7();
    }
}

/// The word at position `i` comes before the word at any later position `j`.
pub proof fn lemma_ascending(i: int, j: int)
    requires
        0 <= i < j < 256,
    ensures
        precedes(encode_utf8(dictionary()[i]@), encode_utf8(dictionary()[j]@)),
    decreases j - i,
{
    lemma_settled(i);
    lemma_settled(j);
    lemma_settled(j - 1);
    lemma_word_bytes(dictionary()[i]@);
    lemma_word_bytes(dictionary()[j]@);
    lemma_word_bytes(dictionary()[j - 1]@);
    if i + 1 < j {
        lemma_ascending(i, j - 1);
        lemma_precedes_transitive(
            encode_utf8(dictionary()[i]@),
            encode_utf8(dictionary()[j - 1]@),
            encode_utf8(dictionary()[j]@),
        );
    }
}

/// The dictionary is well formed.
pub proof fn lemma_dictionary_well_formed()
    ensures
        well_formed(dictionary()),
{
    assert forall|i: int| 0 <= i < 256 implies #[trigger] is_word(dictionary()[i]@) by {
        lemma_settled(i);
    }
    assert forall|i: int, j: int| 0 <= i < j < 256 implies #[trigger] precedes(
        encode_utf8(dictionary()[i]@),
        encode_utf8(dictionary()[j]@),
    ) by {
        lemma_ascending(i, j);
    }
}

/// Every entry of the dictionary is a word.
pub proof fn lemma_entry_is_word(b: u8)
    ensures
        is_word(word_at(b)),
{
    lemma_settled(b as int);
}

/// No word of the dictionary stands for two byte values.
pub proof fn lemma_words_distinct(a: u8, b: u8)
    requires
        a != b,
    ensures
        word_at(a) != word_at(b),
{
    if a < b {
        lemma_ascending(a as int, b as int);
        lemma_precedes_asymmetric(encode_utf8(word_at(a)), encode_utf8(word_at(b)));
    } else {
        lemma_ascending(b as int, a as int);
        lemma_precedes_asymmetric(encode_utf8(word_at(b)), encode_utf8(word_at(a)));
    }
}

} // verus!
