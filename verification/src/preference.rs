//! How strongly a caller prefers a smaller resident footprint over latency.

use crate::json::{flag_of, member, text_of};
use crate::ladder::MemoryStrategy;
use crate::text::{reads_as, trim};
use vstd::prelude::*;

verus! {

/// Caller preference for trading latency for a smaller resident footprint.
///
/// Every mode is lossless: it only ever prefers a rung that is verified against the resident baseline,
/// and never changes the numeric tier, the precision or the set of candidates. Where no verified rung
/// below the resident one fits, the normative order stands.
#[derive(Clone, Copy, Debug, PartialEq, Eq, Structural)]
pub enum MemoryPreference {
    /// Normative order: the first fitting rung wins, the resident one first.
    Default,
    /// The first verified fitting rung below the resident one, over a fitting resident one.
    PreferOffload,
    /// The deepest verified fitting rung.
    MaxOffload,
}

impl MemoryPreference {
    /// Where rungs `a` and `b` both fit, `a` is taken before `b`: a promoted rung before one that is
    /// not, and else the one that comes first in the normative order, or of promoted rungs the
    /// deeper one where the most offload is preferred.
    pub open spec fn puts_ahead(
        self,
        a: MemoryStrategy,
        a_promoted: bool,
        b: MemoryStrategy,
        b_promoted: bool,
    ) -> bool {
        if a_promoted != b_promoted {
            a_promoted
        } else if a_promoted && self == MemoryPreference::MaxOffload {
            a.depth() > b.depth()
        } else {
            a.depth() < b.depth()
        }
    }

    /// A fitting resident rung gives way to a verified fitting rung below it.
    pub fn defers_resident(self) -> (result: bool)
        ensures
            result == (self != MemoryPreference::Default),
    {
        !matches!(self, MemoryPreference::Default)
    }

    /// The deepest verified fitting rung is taken.
    pub fn prefers_deepest(self) -> (result: bool)
        ensures
            result == (self == MemoryPreference::MaxOffload),
    {
        matches!(self, MemoryPreference::MaxOffload)
    }
}

impl Default for MemoryPreference {
    fn default() -> (result: Self)
        ensures
            result == MemoryPreference::Default,
    {
        MemoryPreference::Default
    }
}

/// The preference that a token names, whatever the case of its letters.
pub open spec fn named_preference(token: Seq<char>) -> MemoryPreference {
    let word = crate::text::small_letters(token);
    if word == "1"@ || word == "true"@ || word == "yes"@ || word == "on"@ || word == "offload"@
        || word == "staged"@ || word == "sequential"@ {
        MemoryPreference::PreferOffload
    } else if word == "2"@ || word == "max"@ || word == "aggressive"@ || word == "deep"@ || word
        == "bounded"@ {
        MemoryPreference::MaxOffload
    } else {
        MemoryPreference::Default
    }
}

/// The preference that the value of the process-wide setting names. The setting knows the words of
/// [`named_preference`] but for the names of rungs.
pub open spec fn configured_preference(setting: Seq<char>) -> MemoryPreference {
    let word = crate::text::small_letters(crate::text::trimmed(setting));
    if word == "1"@ || word == "true"@ || word == "yes"@ || word == "on"@ || word == "offload"@ {
        MemoryPreference::PreferOffload
    } else if word == "2"@ || word == "max"@ || word == "aggressive"@ || word == "deep"@ {
        MemoryPreference::MaxOffload
    } else {
        MemoryPreference::Default
    }
}

/// What a request says of its preference: for each of the members that may carry one, whether it is
/// there and, if so, what it holds where it is of the expected kind.
#[derive(Clone, Copy, Debug, PartialEq, Eq)]
pub struct PreferenceFields<'a> {
    /// `memoryPreference`
    pub memory_preference: Option<Option<&'a str>>,
    /// `advanced.memoryPreference`
    pub advanced_memory_preference: Option<Option<&'a str>>,
    /// `lowVram`
    pub low_vram: Option<Option<bool>>,
    /// `advanced.lowVram`
    pub advanced_low_vram: Option<Option<bool>>,
}

/// [`PreferenceFields`], with texts as characters.
#[verifier::ext_equal]
pub struct FieldsView {
    pub memory_preference: Option<Option<Seq<char>>>,
    pub advanced_memory_preference: Option<Option<Seq<char>>>,
    pub low_vram: Option<Option<bool>>,
    pub advanced_low_vram: Option<Option<bool>>,
}

/// The characters of a member that may be absent or not a text.
pub open spec fn member_view(member: Option<Option<&str>>) -> Option<Option<Seq<char>>> {
    match member {
        Some(text) => Some(crate::text::optional_view(text)),
        None => None,
    }
}

impl<'a> View for PreferenceFields<'a> {
    type V = FieldsView;

    open spec fn view(&self) -> FieldsView {
        FieldsView {
            memory_preference: member_view(self.memory_preference),
            advanced_memory_preference: member_view(self.advanced_memory_preference),
            low_vram: self.low_vram,
            advanced_low_vram: self.advanced_low_vram,
        }
    }
}

/// What the first member that is there holds; the second counts only where the first is absent.
pub open spec fn first_present<T>(first: Option<Option<T>>, second: Option<Option<T>>) -> Option<T> {
    match first {
        Some(held) => held,
        None => match second {
            Some(held) => held,
            None => None,
        },
    }
}

impl FieldsView {
    /// The preference that the request expresses: the one that its text names, or else the one that
    /// its flag stands for.
    pub open spec fn preference(self) -> Option<MemoryPreference> {
        match first_present(self.memory_preference, self.advanced_memory_preference) {
            Some(text) => Some(named_preference(crate::text::trimmed(text))),
            None => match first_present(self.low_vram, self.advanced_low_vram) {
                Some(true) => Some(MemoryPreference::PreferOffload),
                Some(false) => Some(MemoryPreference::Default),
                None => None,
            },
        }
    }
}

/// The text member `key` of `value`.
pub open spec fn text_member(value: serde_json::Value, key: Seq<char>) -> Option<
    Option<Seq<char>>,
> {
    if crate::json::json_members(value).contains_key(key) {
        Some(crate::json::json_text(crate::json::json_members(value)[key]))
    } else {
        None
    }
}

/// The flag member `key` of `value`.
pub open spec fn flag_member(value: serde_json::Value, key: Seq<char>) -> Option<Option<bool>> {
    if crate::json::json_members(value).contains_key(key) {
        Some(crate::json::json_flag(crate::json::json_members(value)[key]))
    } else {
        None
    }
}

/// The members of a request that may carry a preference.
pub open spec fn request_fields(request: serde_json::Value) -> FieldsView {
    let members = crate::json::json_members(request);
    let has_advanced = members.contains_key("advanced"@);
    let advanced = members["advanced"@];
    FieldsView {
        memory_preference: text_member(request, "memoryPreference"@),
        advanced_memory_preference: if has_advanced {
            text_member(advanced, "memoryPreference"@)
        } else {
            None
        },
        low_vram: flag_member(request, "lowVram"@),
        advanced_low_vram: if has_advanced {
            flag_member(advanced, "lowVram"@)
        } else {
            None
        },
    }
}

fn read_text<'v>(value: &'v serde_json::Value, key: &str) -> (result: Option<Option<&'v str>>)
    ensures
        member_view(result) == text_member(*value, key@),
{
    match member(value, key) {
        Some(found) => Some(text_of(found)),
        None => None,
    }
}

fn read_flag(value: &serde_json::Value, key: &str) -> (result: Option<Option<bool>>)
    ensures
        result == flag_member(*value, key@),
{
    match member(value, key) {
        Some(found) => Some(flag_of(found)),
        None => None,
    }
}

impl MemoryPreference {
    /// The preference that a token names.
    pub fn from_token(token: &str) -> (result: Self)
        ensures
            result == named_preference(token@),
    {
        if reads_as(token, "1") || reads_as(token, "true") || reads_as(token, "yes") || reads_as(
            token,
            "on",
        ) || reads_as(token, "offload") || reads_as(token, "staged") || reads_as(
            token,
            "sequential",
        ) {
            MemoryPreference::PreferOffload
        } else if reads_as(token, "2") || reads_as(token, "max") || reads_as(token, "aggressive")
            || reads_as(token, "deep") || reads_as(token, "bounded") {
            MemoryPreference::MaxOffload
        } else {
            MemoryPreference::Default
        }
    }

    /// The process-wide preference, given the value of `SCENEWORKS_MEMORY_PREFER_OFFLOAD` where it is
    /// set: `1`, `true`, `yes`, `on` and `offload` stand for [`PreferOffload`](Self::PreferOffload),
    /// `2`, `max`, `aggressive` and `deep` for [`MaxOffload`](Self::MaxOffload), and anything else,
    /// or no value, for [`Default`](Self::Default). Case and surrounding white space do not matter.
    pub fn from_env(setting: Option<&str>) -> (result: Self)
        ensures
            result == match setting {
                Some(raw) => configured_preference(raw@),
                None => MemoryPreference::Default,
            },
    {
        let raw = match setting {
            Some(raw) => raw,
            None => {
                return MemoryPreference::Default;
            },
        };
        let token = trim(raw);
        if reads_as(token, "1") || reads_as(token, "true") || reads_as(token, "yes") || reads_as(
            token,
            "on",
        ) || reads_as(token, "offload") {
            MemoryPreference::PreferOffload
        } else if reads_as(token, "2") || reads_as(token, "max") || reads_as(token, "aggressive")
            || reads_as(token, "deep") {
            MemoryPreference::MaxOffload
        } else {
            MemoryPreference::Default
        }
    }

    /// The preference that the members of a request express, or `None` where they express none.
    pub fn from_fields(fields: PreferenceFields) -> (result: Option<Self>)
        ensures
            result == fields@.preference(),
    {
        let text = match fields.memory_preference {
            Some(held) => held,
            None => match fields.advanced_memory_preference {
                Some(held) => held,
                None => None,
            },
        };
        if let Some(token) = text {
            return Some(Self::from_token(trim(token)));
        }
        let flag = match fields.low_vram {
            Some(held) => held,
            None => match fields.advanced_low_vram {
                Some(held) => held,
                None => None,
            },
        };
        match flag {
            Some(true) => Some(MemoryPreference::PreferOffload),
            Some(false) => Some(MemoryPreference::Default),
            None => None,
        }
    }

    /// The preference that a JSON request expresses: the text `memoryPreference` or
    /// `advanced.memoryPreference`, or the boolean `lowVram` or `advanced.lowVram`. `None` where the
    /// request expresses none, so that the caller can fall back to [`from_env`](Self::from_env).
    pub fn from_request(request: &serde_json::Value) -> (result: Option<Self>)
        ensures
            result == request_fields(*request).preference(),
    {
        let memory_preference = read_text(request, "memoryPreference");
        let low_vram = read_flag(request, "lowVram");
        let fields = match member(request, "advanced") {
            Some(advanced) => PreferenceFields {
                memory_preference,
                advanced_memory_preference: read_text(advanced, "memoryPreference"),
                low_vram,
                advanced_low_vram: read_flag(advanced, "lowVram"),
            },
            None => PreferenceFields {
                memory_preference,
                advanced_memory_preference: None,
                low_vram,
                advanced_low_vram: None,
            },
        };
        assert(fields@ =~= request_fields(*request));
        Self::from_fields(fields)
    }
}

/// The case of a token's letters does not matter.
pub proof fn law_tokens_ignore_case(a: Seq<char>, b: Seq<char>)
    requires
        crate::text::small_letters(a) == crate::text::small_letters(b),
    ensures
        named_preference(a) == named_preference(b),
{
}

/// A setting that asks for an offload asks for the same when a request names it.
pub proof fn law_settings_are_tokens(setting: Seq<char>)
    requires
        configured_preference(setting) != MemoryPreference::Default,
    ensures
        configured_preference(setting) == named_preference(crate::text::trimmed(setting)),
{
    reveal_strlit("1");
    reveal_strlit("true");
    reveal_strlit("yes");
    reveal_strlit("on");
    reveal_strlit("offload");
    reveal_strlit("staged");
    reveal_strlit("sequential");
    reveal_strlit("2");
    reveal_strlit("max");
    reveal_strlit("aggressive");
    reveal_strlit("deep");
    assert("2"@[0] == '2' && "1"@[0] == '1');
    assert("max"@.len() == 3 && "max"@[0] == 'm' && "yes"@[0] == 'y');
    assert("deep"@.len() == 4 && "deep"@[0] == 'd' && "true"@[0] == 't');
    assert("aggressive"@.len() == 10 && "aggressive"@[0] == 'a' && "sequential"@[0] == 's');
}

/// Under each preference, of two different rungs exactly one is put ahead of the other.
pub proof fn law_preference_is_decisive(
    preference: MemoryPreference,
    a: MemoryStrategy,
    a_promoted: bool,
    b: MemoryStrategy,
    b_promoted: bool,
)
    requires
        a != b,
    ensures
        preference.puts_ahead(a, a_promoted, b, b_promoted) <==> !preference.puts_ahead(
            b,
            b_promoted,
            a,
            a_promoted,
        ),
{
}

/// A token asks for an offload exactly where, in small letters, it is one of seven words, and for the
/// most offload exactly where it is one of five others; every other token names the default.
pub proof fn law_tokens_that_name_a_preference(token: Seq<char>)
    ensures
        ({
            let word = crate::text::small_letters(token);
            let offload = word == "1"@ || word == "true"@ || word == "yes"@ || word == "on"@ || word
                == "offload"@ || word == "staged"@ || word == "sequential"@;
            let most = word == "2"@ || word == "max"@ || word == "aggressive"@ || word == "deep"@
                || word == "bounded"@;
            &&& named_preference(token) == MemoryPreference::PreferOffload <==> offload
            &&& named_preference(token) == MemoryPreference::MaxOffload <==> most
            &&& named_preference(token) == MemoryPreference::Default <==> !offload && !most
        }),
{
    lemma_words_are_distinct(crate::text::small_letters(token));
}

/// The process-wide setting asks for an offload exactly where, trimmed and in small letters, it is one
/// of five words, and for the most offload exactly where it is one of four others.
pub proof fn law_settings_that_name_a_preference(setting: Seq<char>)
    ensures
        ({
            let word = crate::text::small_letters(crate::text::trimmed(setting));
            let offload = word == "1"@ || word == "true"@ || word == "yes"@ || word == "on"@ || word
                == "offload"@;
            let most = word == "2"@ || word == "max"@ || word == "aggressive"@ || word == "deep"@;
            &&& configured_preference(setting) == MemoryPreference::PreferOffload <==> offload
            &&& configured_preference(setting) == MemoryPreference::MaxOffload <==> most
            &&& configured_preference(setting) == MemoryPreference::Default <==> !offload && !most
        }),
{
    lemma_words_are_distinct(crate::text::small_letters(crate::text::trimmed(setting)));
}

proof fn lemma_words_are_distinct(word: Seq<char>)
    ensures
        word == "1"@ || word == "true"@ || word == "yes"@ || word == "on"@ || word == "offload"@ || word
            == "staged"@ || word == "sequential"@ ==> word != "2"@ && word != "max"@ && word
            != "aggressive"@ && word != "deep"@ && word != "bounded"@,
{
    reveal_strlit("1");
    reveal_strlit("true");
    reveal_strlit("yes");
    reveal_strlit("on");
    reveal_strlit("offload");
    reveal_strlit("staged");
    reveal_strlit("sequential");
    reveal_strlit("2");
    reveal_strlit("max");
    reveal_strlit("aggressive");
    reveal_strlit("deep");
    reveal_strlit("bounded");
    assert("1"@.len() == 1 && "2"@.len() == 1 && "1"@[0] == '1' && "2"@[0] == '2');
    assert("yes"@.len() == 3 && "max"@.len() == 3 && "yes"@[0] == 'y' && "max"@[0] == 'm');
    assert("true"@.len() == 4 && "deep"@.len() == 4 && "true"@[0] == 't' && "deep"@[0] == 'd');
    assert("offload"@.len() == 7 && "bounded"@.len() == 7 && "offload"@[1] == 'f' && "bounded"@[1]
        == 'o');
    assert("sequential"@.len() == 10 && "aggressive"@.len() == 10 && "sequential"@[0] == 's'
        && "aggressive"@[0] == 'a');
    assert("on"@.len() == 2 && "staged"@.len() == 6);
}

/// A request whose first present preference member is a text always expresses a preference, whatever
/// the text: the one that the trimmed text names, so a text that names no offload asks for the default.
/// Without a text, the first present flag expresses one. A request expresses none exactly where neither
/// holds: a member that is present but of another kind hides the advanced one of its name.
pub proof fn law_what_a_request_expresses(fields: PreferenceFields)
    ensures
        ({
            let expressed = fields@.preference();
            let text = match fields.memory_preference {
                Some(held) => held,
                None => match fields.advanced_memory_preference {
                    Some(held) => held,
                    None => None,
                },
            };
            let flag = match fields.low_vram {
                Some(held) => held,
                None => match fields.advanced_low_vram {
                    Some(held) => held,
                    None => None,
                },
            };
            &&& text matches Some(token) ==> {
                &&& expressed is Some
                &&& expressed->Some_0 == named_preference(crate::text::trimmed(token@))
            }
            &&& text is None && flag == Some(true) ==> expressed == Some(
                MemoryPreference::PreferOffload,
            )
            &&& text is None && flag == Some(false) ==> expressed == Some(MemoryPreference::Default)
            &&& expressed is None <==> text is None && flag is None
        }),
{
}

/// A request that asks to stay resident overrides any process-wide preference: in particular it
/// expresses a preference, and that is the default, whatever else the request holds.
pub proof fn law_resident_request_asks_for_the_default(fields: PreferenceFields, text: &str)
    requires
        fields.memory_preference == Some(Some(text)) || (fields.memory_preference is None
            && fields.advanced_memory_preference == Some(Some(text))),
        crate::text::small_letters(crate::text::trimmed(text@)) == "resident"@,
    ensures
        fields@.preference() == Some(MemoryPreference::Default),
{
    law_tokens_that_name_a_preference(crate::text::trimmed(text@));
    reveal_strlit("resident");
    reveal_strlit("1");
    reveal_strlit("true");
    reveal_strlit("yes");
    reveal_strlit("on");
    reveal_strlit("offload");
    reveal_strlit("staged");
    reveal_strlit("sequential");
    reveal_strlit("2");
    reveal_strlit("max");
    reveal_strlit("aggressive");
    reveal_strlit("deep");
    reveal_strlit("bounded");
    assert("resident"@.len() == 8);
}

/// What a JSON request expresses is read off its own members before those of its `advanced` member, and
/// off `memoryPreference` before `lowVram`; a text always expresses a preference.
pub proof fn law_what_a_json_request_expresses(request: serde_json::Value)
    ensures
        ({
            let own = crate::json::json_members(request);
            let advanced = crate::json::json_members(own["advanced"@]);
            let expressed = request_fields(request).preference();
            let own_text = own.contains_key("memoryPreference"@);
            let advanced_text = own.contains_key("advanced"@) && advanced.contains_key(
                "memoryPreference"@,
            );
            let own_flag = own.contains_key("lowVram"@);
            let advanced_flag = own.contains_key("advanced"@) && advanced.contains_key("lowVram"@);
            let text = if own_text {
                crate::json::json_text(own["memoryPreference"@])
            } else if advanced_text {
                crate::json::json_text(advanced["memoryPreference"@])
            } else {
                None
            };
            let flag = if own_flag {
                crate::json::json_flag(own["lowVram"@])
            } else if advanced_flag {
                crate::json::json_flag(advanced["lowVram"@])
            } else {
                None
            };
            &&& text is Some ==> expressed == Some(
                named_preference(crate::text::trimmed(text->Some_0)),
            )
            &&& text is None && flag == Some(true) ==> expressed == Some(
                MemoryPreference::PreferOffload,
            )
            &&& text is None && flag == Some(false) ==> expressed == Some(MemoryPreference::Default)
            &&& expressed is None <==> text is None && flag is None
        }),
{
}

} // verus!
