//! The fixed suffix classes of the stemmer and the vowel set.
use vstd::prelude::*;

verus! {

/// The vowels of the alphabet.
pub open spec fn is_vowel(c: char) -> bool {
    c == 'а' || c == 'е' || c == 'и' || c == 'о' || c == 'у' || c == 'ю' || c == 'я' || c == 'і'
        || c == 'ї' || c == 'є'
}

pub fn is_vowel_char(c: char) -> (r: bool)
    ensures
        r == is_vowel(c),
{
    c == 'а' || c == 'е' || c == 'и' || c == 'о' || c == 'у' || c == 'ю' || c == 'я' || c == 'і'
        || c == 'ї' || c == 'є'
}

/// The characters of each ending in a list.
pub open spec fn endings_view(v: Seq<&str>) -> Seq<Seq<char>> {
    v.map_values(|p: &str| p@)
}

/// Endings of the perfective gerund.
pub open spec fn perfective_ground() -> Seq<Seq<char>> {
    seq![
        "ив"@, "ивши"@, "ившись"@, "ыв"@, "ывши"@,
    ]
}

pub fn perfective_ground_list() -> (r: Vec<&'static str>)
    ensures
        endings_view(r@) == perfective_ground(),
{
    let r = vec![
        "ив", "ивши", "ившись", "ыв", "ывши",
    ];
    assert(endings_view(r@) =~= perfective_ground());
    r
}

/// Reflexive endings.
pub open spec fn reflexive() -> Seq<Seq<char>> {
    seq![
        "ся"@, "сь"@, "си"@,
    ]
}

pub fn reflexive_list() -> (r: Vec<&'static str>)
    ensures
        endings_view(r@) == reflexive(),
{
    let r = vec![
        "ся", "сь", "си",
    ];
    assert(endings_view(r@) =~= reflexive());
    r
}

/// Adjective endings.
pub open spec fn adjective() -> Seq<Seq<char>> {
    seq![
        "ими"@, "ій"@, "ий"@, "а"@, "е"@, "ова"@, "ове"@, "ів"@, "є"@, "їй"@, "єє"@, "еє"@, "я"@,
        "ім"@, "ем"@, "им"@, "ім"@, "их"@, "іх"@, "ою"@, "йми"@, "іми"@, "у"@, "ю"@, "ого"@,
        "ому"@, "ої"@,
    ]
}

pub fn adjective_list() -> (r: Vec<&'static str>)
    ensures
        endings_view(r@) == adjective(),
{
    let r = vec![
        "ими", "ій", "ий", "а", "е", "ова", "ове", "ів", "є", "їй", "єє", "еє", "я", "ім", "ем",
        "им", "ім", "их", "іх", "ою", "йми", "іми", "у", "ю", "ого", "ому", "ої",
    ];
    assert(endings_view(r@) =~= adjective());
    r
}

/// Participle endings.
pub open spec fn participle() -> Seq<Seq<char>> {
    seq![
        "ий"@, "ого"@, "ому"@, "им"@, "ім"@, "а"@, "ій"@, "у"@, "ою"@, "ій"@, "і"@, "их"@, "йми"@,
        "их"@,
    ]
}

pub fn participle_list() -> (r: Vec<&'static str>)
    ensures
        endings_view(r@) == participle(),
{
    let r = vec![
        "ий", "ого", "ому", "им", "ім", "а", "ій", "у", "ою", "ій", "і", "их", "йми", "их",
    ];
    assert(endings_view(r@) =~= participle());
    r
}

/// Verb endings.
pub open spec fn verb() -> Seq<Seq<char>> {
    seq![
        "сь"@, "ся"@, "ив"@, "ать"@, "ять"@, "у"@, "ю"@, "ав"@, "али"@, "учи"@, "ячи"@, "вши"@,
        "ши"@, "е"@, "ме"@, "ати"@, "яти"@, "є"@,
    ]
}

pub fn verb_list() -> (r: Vec<&'static str>)
    ensures
        endings_view(r@) == verb(),
{
    let r = vec![
        "сь", "ся", "ив", "ать", "ять", "у", "ю", "ав", "али", "учи", "ячи", "вши", "ши", "е",
        "ме", "ати", "яти", "є",
    ];
    assert(endings_view(r@) =~= verb());
    r
}

/// Noun endings.
pub open spec fn noun() -> Seq<Seq<char>> {
    seq![
        "а"@, "ев"@, "ов"@, "е"@, "ями"@, "ами"@, "еи"@, "и"@, "ей"@, "ой"@, "ий"@, "й"@, "иям"@,
        "ям"@, "ием"@, "ем"@, "ам"@, "ом"@, "о"@, "у"@, "ах"@, "иях"@, "ях"@, "ы"@, "ь"@, "ию"@,
        "ью"@, "ю"@, "ия"@, "ья"@, "я"@, "і"@, "ові"@, "ї"@, "ею"@, "єю"@, "ою"@, "є"@, "еві"@,
        "ем"@, "єм"@, "ів"@, "їв"@, "ю"@,
    ]
}

pub fn noun_list() -> (r: Vec<&'static str>)
    ensures
        endings_view(r@) == noun(),
{
    let r = vec![
        "а", "ев", "ов", "е", "ями", "ами", "еи", "и", "ей", "ой", "ий", "й", "иям", "ям", "ием",
        "ем", "ам", "ом", "о", "у", "ах", "иях", "ях", "ы", "ь", "ию", "ью", "ю", "ия", "ья", "я",
        "і", "ові", "ї", "ею", "єю", "ою", "є", "еві", "ем", "єм", "ів", "їв", "ю",
    ];
    assert(endings_view(r@) =~= noun());
    r
}

/// The trailing vowel left over by the ending classes.
pub open spec fn trailing_i() -> Seq<Seq<char>> {
    seq![
        "и"@,
    ]
}

pub fn trailing_i_list() -> (r: Vec<&'static str>)
    ensures
        endings_view(r@) == trailing_i(),
{
    let r = vec![
        "и",
    ];
    assert(endings_view(r@) =~= trailing_i());
    r
}

/// The derivational suffix.
pub open spec fn ost() -> Seq<Seq<char>> {
    seq![
        "ость"@,
    ]
}

pub fn ost_list() -> (r: Vec<&'static str>)
    ensures
        endings_view(r@) == ost(),
{
    let r = vec![
        "ость",
    ];
    assert(endings_view(r@) =~= ost());
    r
}

/// The soft sign.
pub open spec fn soft_sign() -> Seq<Seq<char>> {
    seq![
        "ь"@,
    ]
}

pub fn soft_sign_list() -> (r: Vec<&'static str>)
    ensures
        endings_view(r@) == soft_sign(),
{
    let r = vec![
        "ь",
    ];
    assert(endings_view(r@) =~= soft_sign());
    r
}

/// Superlative markers.
pub open spec fn superlative() -> Seq<Seq<char>> {
    seq![
        "ейш"@, "ейше"@,
    ]
}

pub fn superlative_list() -> (r: Vec<&'static str>)
    ensures
        endings_view(r@) == superlative(),
{
    let r = vec![
        "ейш", "ейше",
    ];
    assert(endings_view(r@) =~= superlative());
    r
}

/// A doubled н.
pub open spec fn double_n() -> Seq<Seq<char>> {
    seq![
        "нн"@,
    ]
}

pub fn double_n_list() -> (r: Vec<&'static str>)
    ensures
        endings_view(r@) == double_n(),
{
    let r = vec![
        "нн",
    ];
    assert(endings_view(r@) =~= double_n());
    r
}

} // verus!
