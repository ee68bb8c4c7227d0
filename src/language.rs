use vstd::prelude::*;

use crate::text::{chars_of, string_of};

verus! {

/// The code that stands for "no language".
pub open spec fn no_language_code() -> Seq<char> {
    seq!['n', 'o', 'n', 'e']
}

/// English name of a language, looked up by its two-letter code.
pub open spec fn language_name_of_pair(a: char, b: char) -> Option<Seq<char>> {
    match (a, b) {
        ('a', 'b') => Some("Abkhaz"@),
        ('a', 'a') => Some("Afar"@),
        ('a', 'f') => Some("Afrikaans"@),
        ('a', 'k') => Some("Akan"@),
        ('s', 'q') => Some("Albanian"@),
        ('a', 'm') => Some("Amharic"@),
        ('a', 'r') => Some("Arabic"@),
        ('a', 'n') => Some("Aragonese"@),
        ('h', 'y') => Some("Armenian"@),
        ('a', 's') => Some("Assamese"@),
        ('a', 'v') => Some("Avaric"@),
        ('a', 'e') => Some("Avestan"@),
        ('a', 'y') => Some("Aymara"@),
        ('a', 'z') => Some("Azerbaijani"@),
        ('b', 'm') => Some("Bambara"@),
        ('b', 'a') => Some("Bashkir"@),
        ('e', 'u') => Some("Basque"@),
        ('b', 'e') => Some("Belarusian"@),
        ('b', 'n') => Some("Bengali"@),
        ('b', 'h') => Some("Bihari"@),
        ('b', 'i') => Some("Bislama"@),
        ('b', 's') => Some("Bosnian"@),
        ('b', 'r') => Some("Breton"@),
        ('b', 'g') => Some("Bulgarian"@),
        ('m', 'y') => Some("Burmese"@),
        ('c', 'a') => Some("Catalan; Valencian"@),
        ('c', 'h') => Some("Chamorro"@),
        ('c', 'e') => Some("Chechen"@),
        ('n', 'y') => Some("Chichewa; Chewa; Nyanja"@),
        ('z', 'h') => Some("Chinese"@),
        ('c', 'v') => Some("Chuvash"@),
        ('k', 'w') => Some("Cornish"@),
        ('c', 'o') => Some("Corsican"@),
        ('c', 'r') => Some("Cree"@),
        ('h', 'r') => Some("Croatian"@),
        ('c', 's') => Some("Czech"@),
        ('d', 'a') => Some("Danish"@),
        ('d', 'v') => Some("Divehi; Maldivian;"@),
        ('n', 'l') => Some("Dutch"@),
        ('d', 'z') => Some("Dzongkha"@),
        ('e', 'n') => Some("English"@),
        ('e', 'o') => Some("Esperanto"@),
        ('e', 't') => Some("Estonian"@),
        ('e', 'e') => Some("Ewe"@),
        ('f', 'o') => Some("Faroese"@),
        ('f', 'j') => Some("Fijian"@),
        ('f', 'i') => Some("Finnish"@),
        ('f', 'r') => Some("French"@),
        ('f', 'f') => Some("Fula"@),
        ('g', 'l') => Some("Galician"@),
        ('k', 'a') => Some("Georgian"@),
        ('d', 'e') => Some("German"@),
        ('e', 'l') => Some("Greek, Modern"@),
        ('g', 'n') => Some("Guaraní"@),
        ('g', 'u') => Some("Gujarati"@),
        ('h', 't') => Some("Haitian"@),
        ('h', 'a') => Some("Hausa"@),
        ('h', 'e') => Some("Hebrew (modern)"@),
        ('h', 'z') => Some("Herero"@),
        ('h', 'i') => Some("Hindi"@),
        ('h', 'o') => Some("Hiri Motu"@),
        ('h', 'u') => Some("Hungarian"@),
        ('i', 'a') => Some("Interlingua"@),
        ('i', 'd') => Some("Indonesian"@),
        ('i', 'e') => Some("Interlingue"@),
        ('g', 'a') => Some("Irish"@),
        ('i', 'g') => Some("Igbo"@),
        ('i', 'k') => Some("Inupiaq"@),
        ('i', 'o') => Some("Ido"@),
        ('i', 's') => Some("Icelandic"@),
        ('i', 't') => Some("Italian"@),
        ('i', 'u') => Some("Inuktitut"@),
        ('j', 'a') => Some("Japanese"@),
        ('j', 'v') => Some("Javanese"@),
        ('k', 'l') => Some("Kalaallisut"@),
        ('k', 'n') => Some("Kannada"@),
        ('k', 'r') => Some("Kanuri"@),
        ('k', 's') => Some("Kashmiri"@),
        ('k', 'k') => Some("Kazakh"@),
        ('k', 'm') => Some("Khmer"@),
        ('k', 'i') => Some("Kikuyu, Gikuyu"@),
        ('r', 'w') => Some("Kinyarwanda"@),
        ('k', 'y') => Some("Kirghiz, Kyrgyz"@),
        ('k', 'v') => Some("Komi"@),
        ('k', 'g') => Some("Kongo"@),
        ('k', 'o') => Some("Korean"@),
        ('k', 'u') => Some("Kurdish"@),
        ('k', 'j') => Some("Kwanyama, Kuanyama"@),
        ('l', 'a') => Some("Latin"@),
        ('l', 'b') => Some("Luxembourgish"@),
        ('l', 'g') => Some("Luganda"@),
        ('l', 'i') => Some("Limburgish"@),
        ('l', 'n') => Some("Lingala"@),
        ('l', 'o') => Some("Lao"@),
        ('l', 't') => Some("Lithuanian"@),
        ('l', 'u') => Some("Luba-Katanga"@),
        ('l', 'v') => Some("Latvian"@),
        ('g', 'v') => Some("Manx"@),
        ('m', 'k') => Some("Macedonian"@),
        ('m', 'g') => Some("Malagasy"@),
        ('m', 's') => Some("Malay"@),
        ('m', 'l') => Some("Malayalam"@),
        ('m', 't') => Some("Maltese"@),
        ('m', 'i') => Some("Māori"@),
        ('m', 'r') => Some("Marathi (Marāṭhī)"@),
        ('m', 'h') => Some("Marshallese"@),
        ('m', 'n') => Some("Mongolian"@),
        ('n', 'a') => Some("Nauru"@),
        ('n', 'v') => Some("Navajo, Navaho"@),
        ('n', 'b') => Some("Norwegian Bokmål"@),
        ('n', 'd') => Some("North Ndebele"@),
        ('n', 'e') => Some("Nepali"@),
        ('n', 'g') => Some("Ndonga"@),
        ('n', 'n') => Some("Norwegian Nynorsk"@),
        ('n', 'o') => Some("Norwegian"@),
        ('i', 'i') => Some("Nuosu"@),
        ('n', 'r') => Some("South Ndebele"@),
        ('o', 'c') => Some("Occitan"@),
        ('o', 'j') => Some("Ojibwe, Ojibwa"@),
        ('c', 'u') => Some("Old Church Slavonic"@),
        ('o', 'm') => Some("Oromo"@),
        ('o', 'r') => Some("Oriya"@),
        ('o', 's') => Some("Ossetian, Ossetic"@),
        ('p', 'a') => Some("Panjabi, Punjabi"@),
        ('p', 'i') => Some("Pāli"@),
        ('f', 'a') => Some("Persian"@),
        ('p', 'l') => Some("Polish"@),
        ('p', 's') => Some("Pashto, Pushto"@),
        ('p', 't') => Some("Portuguese"@),
        ('q', 'u') => Some("Quechua"@),
        ('r', 'm') => Some("Romansh"@),
        ('r', 'n') => Some("Kirundi"@),
        ('r', 'o') => Some("Romanian, Moldavan"@),
        ('r', 'u') => Some("Russian"@),
        ('s', 'a') => Some("Sanskrit (Saṁskṛta)"@),
        ('s', 'c') => Some("Sardinian"@),
        ('s', 'd') => Some("Sindhi"@),
        ('s', 'e') => Some("Northern Sami"@),
        ('s', 'm') => Some("Samoan"@),
        ('s', 'g') => Some("Sango"@),
        ('s', 'r') => Some("Serbian"@),
        ('g', 'd') => Some("Scottish Gaelic"@),
        ('s', 'n') => Some("Shona"@),
        ('s', 'i') => Some("Sinhala, Sinhalese"@),
        ('s', 'k') => Some("Slovak"@),
        ('s', 'l') => Some("Slovene"@),
        ('s', 'o') => Some("Somali"@),
        ('s', 't') => Some("Southern Sotho"@),
        ('e', 's') => Some("Spanish; Castilian"@),
        ('s', 'u') => Some("Sundanese"@),
        ('s', 'w') => Some("Swahili"@),
        ('s', 's') => Some("Swati"@),
        ('s', 'v') => Some("Swedish"@),
        ('t', 'a') => Some("Tamil"@),
        ('t', 'e') => Some("Telugu"@),
        ('t', 'g') => Some("Tajik"@),
        ('t', 'h') => Some("Thai"@),
        ('t', 'i') => Some("Tigrinya"@),
        ('b', 'o') => Some("Tibetan"@),
        ('t', 'k') => Some("Turkmen"@),
        ('t', 'l') => Some("Tagalog"@),
        ('t', 'n') => Some("Tswana"@),
        ('t', 'o') => Some("Tonga"@),
        ('t', 'r') => Some("Turkish"@),
        ('t', 's') => Some("Tsonga"@),
        ('t', 't') => Some("Tatar"@),
        ('t', 'w') => Some("Twi"@),
        ('t', 'y') => Some("Tahitian"@),
        ('u', 'g') => Some("Uighur, Uyghur"@),
        ('u', 'k') => Some("Ukrainian"@),
        ('u', 'r') => Some("Urdu"@),
        ('u', 'z') => Some("Uzbek"@),
        ('v', 'e') => Some("Venda"@),
        ('v', 'i') => Some("Vietnamese"@),
        ('v', 'o') => Some("Volapük"@),
        ('w', 'a') => Some("Walloon"@),
        ('c', 'y') => Some("Welsh"@),
        ('w', 'o') => Some("Wolof"@),
        ('f', 'y') => Some("Western Frisian"@),
        ('x', 'h') => Some("Xhosa"@),
        ('y', 'i') => Some("Yiddish"@),
        ('y', 'o') => Some("Yoruba"@),
        ('z', 'a') => Some("Zhuang, Chuang"@),
        ('z', 'u') => Some("Zulu"@),
        _ => None,
    }
}

/// English name of a language code, where the code is known.
pub open spec fn language_name(code: Seq<char>) -> Option<Seq<char>> {
    if code == no_language_code() {
        Some("None"@)
    } else if code.len() == 2 {
        language_name_of_pair(code[0], code[1])
    } else {
        None
    }
}

/// The long form of a language code: its English name where known, else
/// the code itself.
pub open spec fn long_language(code: Seq<char>) -> Seq<char> {
    match language_name(code) {
        Some(name) => name,
        None => code,
    }
}

fn language_name_of_pair_exec(a: char, b: char) -> (r: Option<&'static str>)
    ensures
        match r {
            Some(name) => language_name_of_pair(a, b) == Some(name@),
            None => language_name_of_pair(a, b) is None,
        },
{
    match (a, b) {
        ('a', 'b') => Some("Abkhaz"),
        ('a', 'a') => Some("Afar"),
        ('a', 'f') => Some("Afrikaans"),
        ('a', 'k') => Some("Akan"),
        ('s', 'q') => Some("Albanian"),
        ('a', 'm') => Some("Amharic"),
        ('a', 'r') => Some("Arabic"),
        ('a', 'n') => Some("Aragonese"),
        ('h', 'y') => Some("Armenian"),
        ('a', 's') => Some("Assamese"),
        ('a', 'v') => Some("Avaric"),
        ('a', 'e') => Some("Avestan"),
        ('a', 'y') => Some("Aymara"),
        ('a', 'z') => Some("Azerbaijani"),
        ('b', 'm') => Some("Bambara"),
        ('b', 'a') => Some("Bashkir"),
        ('e', 'u') => Some("Basque"),
        ('b', 'e') => Some("Belarusian"),
        ('b', 'n') => Some("Bengali"),
        ('b', 'h') => Some("Bihari"),
        ('b', 'i') => Some("Bislama"),
        ('b', 's') => Some("Bosnian"),
        ('b', 'r') => Some("Breton"),
        ('b', 'g') => Some("Bulgarian"),
        ('m', 'y') => Some("Burmese"),
        ('c', 'a') => Some("Catalan; Valencian"),
        ('c', 'h') => Some("Chamorro"),
        ('c', 'e') => Some("Chechen"),
        ('n', 'y') => Some("Chichewa; Chewa; Nyanja"),
        ('z', 'h') => Some("Chinese"),
        ('c', 'v') => Some("Chuvash"),
        ('k', 'w') => Some("Cornish"),
        ('c', 'o') => Some("Corsican"),
        ('c', 'r') => Some("Cree"),
        ('h', 'r') => Some("Croatian"),
        ('c', 's') => Some("Czech"),
        ('d', 'a') => Some("Danish"),
        ('d', 'v') => Some("Divehi; Maldivian;"),
        ('n', 'l') => Some("Dutch"),
        ('d', 'z') => Some("Dzongkha"),
        ('e', 'n') => Some("English"),
        ('e', 'o') => Some("Esperanto"),
        ('e', 't') => Some("Estonian"),
        ('e', 'e') => Some("Ewe"),
        ('f', 'o') => Some("Faroese"),
        ('f', 'j') => Some("Fijian"),
        ('f', 'i') => Some("Finnish"),
        ('f', 'r') => Some("French"),
        ('f', 'f') => Some("Fula"),
        ('g', 'l') => Some("Galician"),
        ('k', 'a') => Some("Georgian"),
        ('d', 'e') => Some("German"),
        ('e', 'l') => Some("Greek, Modern"),
        ('g', 'n') => Some("Guaraní"),
        ('g', 'u') => Some("Gujarati"),
        ('h', 't') => Some("Haitian"),
        ('h', 'a') => Some("Hausa"),
        ('h', 'e') => Some("Hebrew (modern)"),
        ('h', 'z') => Some("Herero"),
        ('h', 'i') => Some("Hindi"),
        ('h', 'o') => Some("Hiri Motu"),
        ('h', 'u') => Some("Hungarian"),
        ('i', 'a') => Some("Interlingua"),
        ('i', 'd') => Some("Indonesian"),
        ('i', 'e') => Some("Interlingue"),
        ('g', 'a') => Some("Irish"),
        ('i', 'g') => Some("Igbo"),
        ('i', 'k') => Some("Inupiaq"),
        ('i', 'o') => Some("Ido"),
        ('i', 's') => Some("Icelandic"),
        ('i', 't') => Some("Italian"),
        ('i', 'u') => Some("Inuktitut"),
        ('j', 'a') => Some("Japanese"),
        ('j', 'v') => Some("Javanese"),
        ('k', 'l') => Some("Kalaallisut"),
        ('k', 'n') => Some("Kannada"),
        ('k', 'r') => Some("Kanuri"),
        ('k', 's') => Some("Kashmiri"),
        ('k', 'k') => Some("Kazakh"),
        ('k', 'm') => Some("Khmer"),
        ('k', 'i') => Some("Kikuyu, Gikuyu"),
        ('r', 'w') => Some("Kinyarwanda"),
        ('k', 'y') => Some("Kirghiz, Kyrgyz"),
        ('k', 'v') => Some("Komi"),
        ('k', 'g') => Some("Kongo"),
        ('k', 'o') => Some("Korean"),
        ('k', 'u') => Some("Kurdish"),
        ('k', 'j') => Some("Kwanyama, Kuanyama"),
        ('l', 'a') => Some("Latin"),
        ('l', 'b') => Some("Luxembourgish"),
        ('l', 'g') => Some("Luganda"),
        ('l', 'i') => Some("Limburgish"),
        ('l', 'n') => Some("Lingala"),
        ('l', 'o') => Some("Lao"),
        ('l', 't') => Some("Lithuanian"),
        ('l', 'u') => Some("Luba-Katanga"),
        ('l', 'v') => Some("Latvian"),
        ('g', 'v') => Some("Manx"),
        ('m', 'k') => Some("Macedonian"),
        ('m', 'g') => Some("Malagasy"),
        ('m', 's') => Some("Malay"),
        ('m', 'l') => Some("Malayalam"),
        ('m', 't') => Some("Maltese"),
        ('m', 'i') => Some("Māori"),
        ('m', 'r') => Some("Marathi (Marāṭhī)"),
        ('m', 'h') => Some("Marshallese"),
        ('m', 'n') => Some("Mongolian"),
        ('n', 'a') => Some("Nauru"),
        ('n', 'v') => Some("Navajo, Navaho"),
        ('n', 'b') => Some("Norwegian Bokmål"),
        ('n', 'd') => Some("North Ndebele"),
        ('n', 'e') => Some("Nepali"),
        ('n', 'g') => Some("Ndonga"),
        ('n', 'n') => Some("Norwegian Nynorsk"),
        ('n', 'o') => Some("Norwegian"),
        ('i', 'i') => Some("Nuosu"),
        ('n', 'r') => Some("South Ndebele"),
        ('o', 'c') => Some("Occitan"),
        ('o', 'j') => Some("Ojibwe, Ojibwa"),
        ('c', 'u') => Some("Old Church Slavonic"),
        ('o', 'm') => Some("Oromo"),
        ('o', 'r') => Some("Oriya"),
        ('o', 's') => Some("Ossetian, Ossetic"),
        ('p', 'a') => Some("Panjabi, Punjabi"),
        ('p', 'i') => Some("Pāli"),
        ('f', 'a') => Some("Persian"),
        ('p', 'l') => Some("Polish"),
        ('p', 's') => Some("Pashto, Pushto"),
        ('p', 't') => Some("Portuguese"),
        ('q', 'u') => Some("Quechua"),
        ('r', 'm') => Some("Romansh"),
        ('r', 'n') => Some("Kirundi"),
        ('r', 'o') => Some("Romanian, Moldavan"),
        ('r', 'u') => Some("Russian"),
        ('s', 'a') => Some("Sanskrit (Saṁskṛta)"),
        ('s', 'c') => Some("Sardinian"),
        ('s', 'd') => Some("Sindhi"),
        ('s', 'e') => Some("Northern Sami"),
        ('s', 'm') => Some("Samoan"),
        ('s', 'g') => Some("Sango"),
        ('s', 'r') => Some("Serbian"),
        ('g', 'd') => Some("Scottish Gaelic"),
        ('s', 'n') => Some("Shona"),
        ('s', 'i') => Some("Sinhala, Sinhalese"),
        ('s', 'k') => Some("Slovak"),
        ('s', 'l') => Some("Slovene"),
        ('s', 'o') => Some("Somali"),
        ('s', 't') => Some("Southern Sotho"),
        ('e', 's') => Some("Spanish; Castilian"),
        ('s', 'u') => Some("Sundanese"),
        ('s', 'w') => Some("Swahili"),
        ('s', 's') => Some("Swati"),
        ('s', 'v') => Some("Swedish"),
        ('t', 'a') => Some("Tamil"),
        ('t', 'e') => Some("Telugu"),
        ('t', 'g') => Some("Tajik"),
        ('t', 'h') => Some("Thai"),
        ('t', 'i') => Some("Tigrinya"),
        ('b', 'o') => Some("Tibetan"),
        ('t', 'k') => Some("Turkmen"),
        ('t', 'l') => Some("Tagalog"),
        ('t', 'n') => Some("Tswana"),
        ('t', 'o') => Some("Tonga"),
        ('t', 'r') => Some("Turkish"),
        ('t', 's') => Some("Tsonga"),
        ('t', 't') => Some("Tatar"),
        ('t', 'w') => Some("Twi"),
        ('t', 'y') => Some("Tahitian"),
        ('u', 'g') => Some("Uighur, Uyghur"),
        ('u', 'k') => Some("Ukrainian"),
        ('u', 'r') => Some("Urdu"),
        ('u', 'z') => Some("Uzbek"),
        ('v', 'e') => Some("Venda"),
        ('v', 'i') => Some("Vietnamese"),
        ('v', 'o') => Some("Volapük"),
        ('w', 'a') => Some("Walloon"),
        ('c', 'y') => Some("Welsh"),
        ('w', 'o') => Some("Wolof"),
        ('f', 'y') => Some("Western Frisian"),
        ('x', 'h') => Some("Xhosa"),
        ('y', 'i') => Some("Yiddish"),
        ('y', 'o') => Some("Yoruba"),
        ('z', 'a') => Some("Zhuang, Chuang"),
        ('z', 'u') => Some("Zulu"),
        _ => None,
    }
}

/// Long name of a language: its English name where the code is known,
/// otherwise the code unchanged.
pub fn get_long_lang(short: &str) -> (r: String)
    ensures
        r@ == long_language(short@),
{
    let code = chars_of(short);
    if code.len() == 4 && code[0] == 'n' && code[1] == 'o' && code[2] == 'n' && code[3] == 'e' {
        assert(code@ =~= no_language_code());
        return String::from_str("None");
    }
    assert(code@ != no_language_code());
    if code.len() == 2 {
        match language_name_of_pair_exec(code[0], code[1]) {
            Some(name) => {
                return String::from_str(name);
            },
            None => {},
        }
    }
    string_of(&code)
}

/// A subtitle language offered for choice: its code and its long name.
pub struct Language {
    pub short: String,
    pub long: String,
}

/// Codes of the languages offered for a subtitle, in the order shown.
pub open spec fn offered_codes() -> Seq<Seq<char>> {
    seq!["en"@, "hi"@, "bn"@, "fr"@, "ja"@, "de"@, "sp"@, no_language_code()]
}

impl Language {
    /// A language entry for a code, with its long name.
    pub fn new(short: &str) -> (r: Language)
        ensures
            r.short@ == short@,
            r.long@ == long_language(short@),
    {
        Language { short: String::from_str(short), long: get_long_lang(short) }
    }

    /// The languages offered for a subtitle file, the last one meaning
    /// "no language".
    pub fn generate_list() -> (r: Vec<Language>)
        ensures
            r@.len() == offered_codes().len(),
            forall|i: int|
                0 <= i < r@.len() ==> r@[i].short@ == #[trigger] offered_codes()[i] && r@[i].long@
                    == long_language(offered_codes()[i]),
    {
        let mut list: Vec<Language> = Vec::new();
        list.push(Language::new("en"));
        list.push(Language::new("hi"));
        list.push(Language::new("bn"));
        list.push(Language::new("fr"));
        list.push(Language::new("ja"));
        list.push(Language::new("de"));
        list.push(Language::new("sp"));
        list.push(Language::new("none"));
        proof {
            reveal_strlit("none");
        }
        assert("none"@ =~= no_language_code());
        list
    }

    /// The text shown for this language in a menu.
    pub fn label(&self) -> (r: String)
        ensures
            r@ == self.long@,
    {
        self.long.clone()
    }
}

} // verus!
