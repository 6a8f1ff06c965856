//! The target languages that the reader offers and the pronunciation
//! schemes that a request may name.
use vstd::prelude::*;
use crate::json::{json_string, spec_json_string, spec_json_string_panics};
use crate::text::{chars_eq_str, chars_of, owned, str_eq};

verus! {

/// The Chinese name of a target language, for the codes that the reader offers.
pub open spec fn spec_target_language_name(code: Seq<char>) -> Option<Seq<char>> {
    if code == "zh-Hans"@ {
        Some("简体中文"@)
    } else if code == "zh-Hant"@ {
        Some("繁体中文"@)
    } else if code == "en"@ {
        Some("英语"@)
    } else if code == "ja"@ {
        Some("日语"@)
    } else if code == "ko"@ {
        Some("韩语"@)
    } else if code == "es"@ {
        Some("西班牙语"@)
    } else if code == "fr"@ {
        Some("法语"@)
    } else if code == "de"@ {
        Some("德语"@)
    } else if code == "pt-BR"@ {
        Some("巴西葡萄牙语"@)
    } else if code == "pt-PT"@ {
        Some("欧洲葡萄牙语"@)
    } else if code == "ru"@ {
        Some("俄语"@)
    } else if code == "ar"@ {
        Some("阿拉伯语"@)
    } else if code == "hi"@ {
        Some("印地语"@)
    } else if code == "vi"@ {
        Some("越南语"@)
    } else if code == "th"@ {
        Some("泰语"@)
    } else if code == "id"@ {
        Some("印度尼西亚语"@)
    } else if code == "ms"@ {
        Some("马来语"@)
    } else if code == "fil"@ {
        Some("菲律宾语"@)
    } else if code == "my"@ {
        Some("缅甸语"@)
    } else if code == "km"@ {
        Some("高棉语"@)
    } else if code == "lo"@ {
        Some("老挝语"@)
    } else if code == "mn"@ {
        Some("蒙古语"@)
    } else if code == "mi"@ {
        Some("毛利语"@)
    } else if code == "jv"@ {
        Some("爪哇语"@)
    } else if code == "su"@ {
        Some("巽他语"@)
    } else if code == "ceb"@ {
        Some("宿务语"@)
    } else if code == "bo"@ {
        Some("藏语"@)
    } else if code == "ug"@ {
        Some("维吾尔语"@)
    } else if code == "bn"@ {
        Some("孟加拉语"@)
    } else if code == "ur"@ {
        Some("乌尔都语"@)
    } else if code == "pa"@ {
        Some("旁遮普语"@)
    } else if code == "ta"@ {
        Some("泰米尔语"@)
    } else if code == "te"@ {
        Some("泰卢固语"@)
    } else if code == "mr"@ {
        Some("马拉地语"@)
    } else if code == "gu"@ {
        Some("古吉拉特语"@)
    } else if code == "kn"@ {
        Some("卡纳达语"@)
    } else if code == "ml"@ {
        Some("马拉雅拉姆语"@)
    } else if code == "ne"@ {
        Some("尼泊尔语"@)
    } else if code == "si"@ {
        Some("僧伽罗语"@)
    } else if code == "uz"@ {
        Some("乌兹别克语"@)
    } else if code == "kk"@ {
        Some("哈萨克语"@)
    } else if code == "ps"@ {
        Some("普什图语"@)
    } else if code == "sd"@ {
        Some("信德语"@)
    } else if code == "ky"@ {
        Some("吉尔吉斯语"@)
    } else if code == "tg"@ {
        Some("塔吉克语"@)
    } else if code == "tk"@ {
        Some("土库曼语"@)
    } else if code == "it"@ {
        Some("意大利语"@)
    } else if code == "nl"@ {
        Some("荷兰语"@)
    } else if code == "pl"@ {
        Some("波兰语"@)
    } else if code == "tr"@ {
        Some("土耳其语"@)
    } else if code == "uk"@ {
        Some("乌克兰语"@)
    } else if code == "cs"@ {
        Some("捷克语"@)
    } else if code == "ro"@ {
        Some("罗马尼亚语"@)
    } else if code == "hu"@ {
        Some("匈牙利语"@)
    } else if code == "el"@ {
        Some("希腊语"@)
    } else if code == "sv"@ {
        Some("瑞典语"@)
    } else if code == "da"@ {
        Some("丹麦语"@)
    } else if code == "no"@ {
        Some("挪威语"@)
    } else if code == "fi"@ {
        Some("芬兰语"@)
    } else if code == "sk"@ {
        Some("斯洛伐克语"@)
    } else if code == "sl"@ {
        Some("斯洛文尼亚语"@)
    } else if code == "hr"@ {
        Some("克罗地亚语"@)
    } else if code == "sr"@ {
        Some("塞尔维亚语"@)
    } else if code == "bg"@ {
        Some("保加利亚语"@)
    } else if code == "lt"@ {
        Some("立陶宛语"@)
    } else if code == "lv"@ {
        Some("拉脱维亚语"@)
    } else if code == "et"@ {
        Some("爱沙尼亚语"@)
    } else if code == "ca"@ {
        Some("加泰罗尼亚语"@)
    } else if code == "eu"@ {
        Some("巴斯克语"@)
    } else if code == "gl"@ {
        Some("加利西亚语"@)
    } else if code == "ga"@ {
        Some("爱尔兰语"@)
    } else if code == "cy"@ {
        Some("威尔士语"@)
    } else if code == "is"@ {
        Some("冰岛语"@)
    } else if code == "sq"@ {
        Some("阿尔巴尼亚语"@)
    } else if code == "mk"@ {
        Some("马其顿语"@)
    } else if code == "be"@ {
        Some("白俄罗斯语"@)
    } else if code == "mt"@ {
        Some("马耳他语"@)
    } else if code == "lb"@ {
        Some("卢森堡语"@)
    } else if code == "fa"@ {
        Some("波斯语"@)
    } else if code == "he"@ {
        Some("希伯来语"@)
    } else if code == "hy"@ {
        Some("亚美尼亚语"@)
    } else if code == "ka"@ {
        Some("格鲁吉亚语"@)
    } else if code == "az"@ {
        Some("阿塞拜疆语"@)
    } else if code == "ku"@ {
        Some("库尔德语"@)
    } else if code == "ht"@ {
        Some("海地克里奥尔语"@)
    } else if code == "sw"@ {
        Some("斯瓦希里语"@)
    } else if code == "af"@ {
        Some("南非语"@)
    } else if code == "am"@ {
        Some("阿姆哈拉语"@)
    } else if code == "so"@ {
        Some("索马里语"@)
    } else if code == "ha"@ {
        Some("豪萨语"@)
    } else if code == "yo"@ {
        Some("约鲁巴语"@)
    } else if code == "zu"@ {
        Some("祖鲁语"@)
    } else if code == "ig"@ {
        Some("伊博语"@)
    } else if code == "om"@ {
        Some("奥罗莫语"@)
    } else if code == "xh"@ {
        Some("科萨语"@)
    } else if code == "rw"@ {
        Some("卢旺达语"@)
    } else if code == "mg"@ {
        Some("马达加斯加语"@)
    } else if code == "ny"@ {
        Some("齐切瓦语"@)
    } else {
        None
    }
}

/// The Chinese name of a target language code, or `None` for a code that the
/// reader does not offer.
pub fn target_language_name(code: &str) -> (r: Option<&'static str>)
    ensures
        r matches Some(n) ==> spec_target_language_name(code@) == Some(n@),
        r is None ==> spec_target_language_name(code@) is None,
{
    let c = chars_of(code);
    if chars_eq_str(&c, "zh-Hans") {
        Some("简体中文")
    } else if chars_eq_str(&c, "zh-Hant") {
        Some("繁体中文")
    } else if chars_eq_str(&c, "en") {
        Some("英语")
    } else if chars_eq_str(&c, "ja") {
        Some("日语")
    } else if chars_eq_str(&c, "ko") {
        Some("韩语")
    } else if chars_eq_str(&c, "es") {
        Some("西班牙语")
    } else if chars_eq_str(&c, "fr") {
        Some("法语")
    } else if chars_eq_str(&c, "de") {
        Some("德语")
    } else if chars_eq_str(&c, "pt-BR") {
        Some("巴西葡萄牙语")
    } else if chars_eq_str(&c, "pt-PT") {
        Some("欧洲葡萄牙语")
    } else if chars_eq_str(&c, "ru") {
        Some("俄语")
    } else if chars_eq_str(&c, "ar") {
        Some("阿拉伯语")
    } else if chars_eq_str(&c, "hi") {
        Some("印地语")
    } else if chars_eq_str(&c, "vi") {
        Some("越南语")
    } else if chars_eq_str(&c, "th") {
        Some("泰语")
    } else if chars_eq_str(&c, "id") {
        Some("印度尼西亚语")
    } else if chars_eq_str(&c, "ms") {
        Some("马来语")
    } else if chars_eq_str(&c, "fil") {
        Some("菲律宾语")
    } else if chars_eq_str(&c, "my") {
        Some("缅甸语")
    } else if chars_eq_str(&c, "km") {
        Some("高棉语")
    } else if chars_eq_str(&c, "lo") {
        Some("老挝语")
    } else if chars_eq_str(&c, "mn") {
        Some("蒙古语")
    } else if chars_eq_str(&c, "mi") {
        Some("毛利语")
    } else if chars_eq_str(&c, "jv") {
        Some("爪哇语")
    } else if chars_eq_str(&c, "su") {
        Some("巽他语")
    } else if chars_eq_str(&c, "ceb") {
        Some("宿务语")
    } else if chars_eq_str(&c, "bo") {
        Some("藏语")
    } else if chars_eq_str(&c, "ug") {
        Some("维吾尔语")
    } else if chars_eq_str(&c, "bn") {
        Some("孟加拉语")
    } else if chars_eq_str(&c, "ur") {
        Some("乌尔都语")
    } else if chars_eq_str(&c, "pa") {
        Some("旁遮普语")
    } else if chars_eq_str(&c, "ta") {
        Some("泰米尔语")
    } else if chars_eq_str(&c, "te") {
        Some("泰卢固语")
    } else if chars_eq_str(&c, "mr") {
        Some("马拉地语")
    } else if chars_eq_str(&c, "gu") {
        Some("古吉拉特语")
    } else if chars_eq_str(&c, "kn") {
        Some("卡纳达语")
    } else if chars_eq_str(&c, "ml") {
        Some("马拉雅拉姆语")
    } else if chars_eq_str(&c, "ne") {
        Some("尼泊尔语")
    } else if chars_eq_str(&c, "si") {
        Some("僧伽罗语")
    } else if chars_eq_str(&c, "uz") {
        Some("乌兹别克语")
    } else if chars_eq_str(&c, "kk") {
        Some("哈萨克语")
    } else if chars_eq_str(&c, "ps") {
        Some("普什图语")
    } else if chars_eq_str(&c, "sd") {
        Some("信德语")
    } else if chars_eq_str(&c, "ky") {
        Some("吉尔吉斯语")
    } else if chars_eq_str(&c, "tg") {
        Some("塔吉克语")
    } else if chars_eq_str(&c, "tk") {
        Some("土库曼语")
    } else if chars_eq_str(&c, "it") {
        Some("意大利语")
    } else if chars_eq_str(&c, "nl") {
        Some("荷兰语")
    } else if chars_eq_str(&c, "pl") {
        Some("波兰语")
    } else if chars_eq_str(&c, "tr") {
        Some("土耳其语")
    } else if chars_eq_str(&c, "uk") {
        Some("乌克兰语")
    } else if chars_eq_str(&c, "cs") {
        Some("捷克语")
    } else if chars_eq_str(&c, "ro") {
        Some("罗马尼亚语")
    } else if chars_eq_str(&c, "hu") {
        Some("匈牙利语")
    } else if chars_eq_str(&c, "el") {
        Some("希腊语")
    } else if chars_eq_str(&c, "sv") {
        Some("瑞典语")
    } else if chars_eq_str(&c, "da") {
        Some("丹麦语")
    } else if chars_eq_str(&c, "no") {
        Some("挪威语")
    } else if chars_eq_str(&c, "fi") {
        Some("芬兰语")
    } else if chars_eq_str(&c, "sk") {
        Some("斯洛伐克语")
    } else if chars_eq_str(&c, "sl") {
        Some("斯洛文尼亚语")
    } else if chars_eq_str(&c, "hr") {
        Some("克罗地亚语")
    } else if chars_eq_str(&c, "sr") {
        Some("塞尔维亚语")
    } else if chars_eq_str(&c, "bg") {
        Some("保加利亚语")
    } else if chars_eq_str(&c, "lt") {
        Some("立陶宛语")
    } else if chars_eq_str(&c, "lv") {
        Some("拉脱维亚语")
    } else if chars_eq_str(&c, "et") {
        Some("爱沙尼亚语")
    } else if chars_eq_str(&c, "ca") {
        Some("加泰罗尼亚语")
    } else if chars_eq_str(&c, "eu") {
        Some("巴斯克语")
    } else if chars_eq_str(&c, "gl") {
        Some("加利西亚语")
    } else if chars_eq_str(&c, "ga") {
        Some("爱尔兰语")
    } else if chars_eq_str(&c, "cy") {
        Some("威尔士语")
    } else if chars_eq_str(&c, "is") {
        Some("冰岛语")
    } else if chars_eq_str(&c, "sq") {
        Some("阿尔巴尼亚语")
    } else if chars_eq_str(&c, "mk") {
        Some("马其顿语")
    } else if chars_eq_str(&c, "be") {
        Some("白俄罗斯语")
    } else if chars_eq_str(&c, "mt") {
        Some("马耳他语")
    } else if chars_eq_str(&c, "lb") {
        Some("卢森堡语")
    } else if chars_eq_str(&c, "fa") {
        Some("波斯语")
    } else if chars_eq_str(&c, "he") {
        Some("希伯来语")
    } else if chars_eq_str(&c, "hy") {
        Some("亚美尼亚语")
    } else if chars_eq_str(&c, "ka") {
        Some("格鲁吉亚语")
    } else if chars_eq_str(&c, "az") {
        Some("阿塞拜疆语")
    } else if chars_eq_str(&c, "ku") {
        Some("库尔德语")
    } else if chars_eq_str(&c, "ht") {
        Some("海地克里奥尔语")
    } else if chars_eq_str(&c, "sw") {
        Some("斯瓦希里语")
    } else if chars_eq_str(&c, "af") {
        Some("南非语")
    } else if chars_eq_str(&c, "am") {
        Some("阿姆哈拉语")
    } else if chars_eq_str(&c, "so") {
        Some("索马里语")
    } else if chars_eq_str(&c, "ha") {
        Some("豪萨语")
    } else if chars_eq_str(&c, "yo") {
        Some("约鲁巴语")
    } else if chars_eq_str(&c, "zu") {
        Some("祖鲁语")
    } else if chars_eq_str(&c, "ig") {
        Some("伊博语")
    } else if chars_eq_str(&c, "om") {
        Some("奥罗莫语")
    } else if chars_eq_str(&c, "xh") {
        Some("科萨语")
    } else if chars_eq_str(&c, "rw") {
        Some("卢旺达语")
    } else if chars_eq_str(&c, "mg") {
        Some("马达加斯加语")
    } else if chars_eq_str(&c, "ny") {
        Some("齐切瓦语")
    } else {
        None
    }
}

/// The target language a request names, where the reader offers it, else
/// simplified Chinese.
pub open spec fn spec_target_language(body: Seq<char>) -> Seq<char> {
    match spec_json_string(body, "targetLanguage"@) {
        Some(code) => if spec_target_language_name(code) is Some {
            code
        } else {
            "zh-Hans"@
        },
        None => "zh-Hans"@,
    }
}

/// The target language of a request: its `targetLanguage` field where the
/// reader offers that language, else `zh-Hans`. What comes back is always
/// a language the reader offers.
pub fn target_language(body: &str) -> (r: String)
    requires
        !spec_json_string_panics(body@, "targetLanguage"@),
    ensures
        r@ == spec_target_language(body@),
        spec_target_language_name(r@) is Some,
{
    let code = match json_string(body, "targetLanguage") {
        Some(c) => c,
        None => owned("zh-Hans"),
    };
    if target_language_name(code.as_str()).is_some() {
        code
    } else {
        owned("zh-Hans")
    }
}

/// The pronunciation schemes a request may name.
pub open spec fn is_pronunciation_scheme(s: Seq<char>) -> bool {
    s == "ipa-us"@ || s == "ipa-uk"@ || s == "ipa"@ || s == "target-friendly"@ || s
        == "syllable"@ || s == "none"@
}

/// The pronunciation scheme a request names, where it is one of the six,
/// else `ipa-us`.
pub open spec fn spec_pronunciation_scheme(body: Seq<char>) -> Seq<char> {
    match spec_json_string(body, "pronunciationScheme"@) {
        Some(s) => if is_pronunciation_scheme(s) {
            s
        } else {
            "ipa-us"@
        },
        None => "ipa-us"@,
    }
}

/// The pronunciation scheme of a request: its `pronunciationScheme` field
/// where that is `ipa-us`, `ipa-uk`, `ipa`, `target-friendly`, `syllable` or
/// `none`, else `ipa-us`.
pub fn pronunciation_scheme(body: &str) -> (r: String)
    requires
        !spec_json_string_panics(body@, "pronunciationScheme"@),
    ensures
        r@ == spec_pronunciation_scheme(body@),
        is_pronunciation_scheme(r@),
{
    let scheme = match json_string(body, "pronunciationScheme") {
        Some(s) => s,
        None => owned("ipa-us"),
    };
    let v = chars_of(scheme.as_str());
    if chars_eq_str(&v, "ipa-us") || chars_eq_str(&v, "ipa-uk") || chars_eq_str(&v, "ipa")
        || chars_eq_str(&v, "target-friendly") || chars_eq_str(&v, "syllable") || chars_eq_str(
        &v,
        "none",
    ) {
        scheme
    } else {
        owned("ipa-us")
    }
}

/// The language code that the built-in translator takes for a target
/// language the reader offers.
pub open spec fn spec_builtin_translation_language(code: Seq<char>) -> Option<Seq<char>> {
    if spec_target_language_name(code) is None {
        None
    } else if code == "zh-Hans"@ {
        Some("zh-CN"@)
    } else if code == "zh-Hant"@ {
        Some("zh-TW"@)
    } else if code == "jv"@ {
        Some("jav"@)
    } else {
        Some(code)
    }
}

/// The built-in translator's code for a target language: `zh-CN`, `zh-TW`
/// and `jav` for the two Chinese scripts and Javanese, the code itself for the
/// other offered languages, `None` for a language the reader does not offer.
pub fn builtin_translation_language(code: &str) -> (r: Option<String>)
    ensures
        r matches Some(s) ==> spec_builtin_translation_language(code@) == Some(s@),
        r is None ==> spec_builtin_translation_language(code@) is None,
{
    if target_language_name(code).is_none() {
        return None;
    }
    if str_eq(code, "zh-Hans") {
        Some(owned("zh-CN"))
    } else if str_eq(code, "zh-Hant") {
        Some(owned("zh-TW"))
    } else if str_eq(code, "jv") {
        Some(owned("jav"))
    } else {
        Some(owned(code))
    }
}

} // verus!
