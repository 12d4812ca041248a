//! The Wyoming `info` tree and the `info` horchd answers `describe` with.

use vstd::prelude::*;

use crate::events::AudioFormat;

verus! {

/// Who made a program or model.
#[derive(Debug, Clone, PartialEq)]
pub struct Attribution {
    pub name: String,
    pub url: String,
}

/// A wakeword model of a wake program.
#[derive(Debug, Clone, PartialEq)]
pub struct WakeModel {
    pub name: String,
    pub attribution: Attribution,
    pub installed: bool,
    pub description: Option<String>,
    pub version: Option<String>,
    pub languages: Vec<String>,
    pub phrase: Option<String>,
}

/// A wakeword detection program.
#[derive(Debug, Clone, PartialEq)]
pub struct WakeProgram {
    pub name: String,
    pub attribution: Attribution,
    pub installed: bool,
    pub description: Option<String>,
    pub version: Option<String>,
    pub models: Vec<WakeModel>,
}

/// A speech recognition model.
#[derive(Debug, Clone, PartialEq)]
pub struct AsrModel {
    pub name: String,
    pub attribution: Attribution,
    pub installed: bool,
    pub description: Option<String>,
    pub version: Option<String>,
    pub languages: Vec<String>,
}

/// A speech recognition program.
#[derive(Debug, Clone, PartialEq)]
pub struct AsrProgram {
    pub name: String,
    pub attribution: Attribution,
    pub installed: bool,
    pub description: Option<String>,
    pub version: Option<String>,
    pub models: Vec<AsrModel>,
}

/// One speaker of a multi-speaker voice.
#[derive(Debug, Clone, PartialEq)]
pub struct TtsVoiceSpeaker {
    pub name: String,
}

/// A text-to-speech voice.
#[derive(Debug, Clone, PartialEq)]
pub struct TtsVoice {
    pub name: String,
    pub attribution: Attribution,
    pub installed: bool,
    pub description: Option<String>,
    pub version: Option<String>,
    pub languages: Vec<String>,
    pub speakers: Vec<TtsVoiceSpeaker>,
}

/// A text-to-speech program.
#[derive(Debug, Clone, PartialEq)]
pub struct TtsProgram {
    pub name: String,
    pub attribution: Attribution,
    pub installed: bool,
    pub description: Option<String>,
    pub version: Option<String>,
    pub voices: Vec<TtsVoice>,
}

/// An intent recognition program.
#[derive(Debug, Clone, PartialEq)]
pub struct IntentProgram {
    pub name: String,
    pub attribution: Attribution,
    pub installed: bool,
    pub description: Option<String>,
    pub version: Option<String>,
    pub languages: Vec<String>,
}

/// An intent handling program.
#[derive(Debug, Clone, PartialEq)]
pub struct HandleProgram {
    pub name: String,
    pub attribution: Attribution,
    pub installed: bool,
    pub description: Option<String>,
    pub version: Option<String>,
    pub languages: Vec<String>,
}

/// A microphone service.
#[derive(Debug, Clone, PartialEq)]
pub struct MicProgram {
    pub name: String,
    pub attribution: Attribution,
    pub installed: bool,
    pub description: Option<String>,
    pub version: Option<String>,
    pub mic_format: AudioFormat,
}

/// A sound output service.
#[derive(Debug, Clone, PartialEq)]
pub struct SndProgram {
    pub name: String,
    pub attribution: Attribution,
    pub installed: bool,
    pub description: Option<String>,
    pub version: Option<String>,
    pub snd_format: AudioFormat,
}

/// A satellite (a remote microphone + speaker).
#[derive(Debug, Clone, PartialEq)]
pub struct Satellite {
    pub name: String,
    pub attribution: Attribution,
    pub installed: bool,
    pub description: Option<String>,
    pub version: Option<String>,
    pub active_wake_words: Vec<String>,
}

/// `info`: what a service offers, per domain.
#[derive(Debug, Clone, PartialEq)]
pub struct Info {
    pub asr: Vec<AsrProgram>,
    pub tts: Vec<TtsProgram>,
    pub handle: Vec<HandleProgram>,
    pub intent: Vec<IntentProgram>,
    pub wake: Vec<WakeProgram>,
    pub mic: Vec<MicProgram>,
    pub snd: Vec<SndProgram>,
    pub satellite: Option<Satellite>,
}

/// The attribution of the wakeword models (openWakeWord).
pub open spec fn model_attribution_ok(a: Attribution) -> bool {
    &&& a.name@ == "openWakeWord"@
    &&& a.url@ == "https://github.com/dscripka/openWakeWord"@
}

fn model_attribution() -> (a: Attribution)
    ensures
        model_attribution_ok(a),
{
    Attribution {
        name: "openWakeWord".to_owned(),
        url: "https://github.com/dscripka/openWakeWord".to_owned(),
    }
}

/// The `info` answer for a daemon whose configured wakewords are named
/// `names`: a single wake program "horchd" (attributed to its author,
/// with the given description and version) holding one installed model
/// per name, in order; every other domain empty.
pub fn build_info(names: &Vec<String>, description: String, version: String) -> (info: Info)
    ensures
        info.asr@.len() == 0,
        info.tts@.len() == 0,
        info.handle@.len() == 0,
        info.intent@.len() == 0,
        info.mic@.len() == 0,
        info.snd@.len() == 0,
        info.satellite is None,
        info.wake@.len() == 1,
        info.wake@[0].name@ == "horchd"@,
        info.wake@[0].attribution.name@ == "NewtTheWolf"@,
        info.wake@[0].attribution.url@ == "https://horchd.xyz"@,
        info.wake@[0].installed,
        info.wake@[0].description == Some(description),
        info.wake@[0].version == Some(version),
        info.wake@[0].models@.len() == names@.len(),
        forall|i: int| #![trigger info.wake@[0].models@[i]] 0 <= i < names@.len() ==> {
            let m = info.wake@[0].models@[i];
            &&& m.name@ == names@[i]@
            &&& model_attribution_ok(m.attribution)
            &&& m.installed
            &&& m.description is None
            &&& m.version is None
            &&& m.languages@.len() == 0
            &&& m.phrase is None
        },
{
    let mut models: Vec<WakeModel> = Vec::new();
    let mut i: usize = 0;
    while i < names.len()
        invariant
            i <= names@.len(),
            models@.len() == i,
            forall|k: int| #![trigger models@[k]] 0 <= k < i ==> {
                let m = models@[k];
                &&& m.name@ == names@[k]@
                &&& model_attribution_ok(m.attribution)
                &&& m.installed
                &&& m.description is None
                &&& m.version is None
                &&& m.languages@.len() == 0
                &&& m.phrase is None
            },
        decreases names@.len() - i,
    {
        models.push(WakeModel {
            name: names[i].clone(),
            attribution: model_attribution(),
            installed: true,
            description: None,
            version: None,
            languages: Vec::new(),
            phrase: None,
        });
        i += 1;
    }
    let program = WakeProgram {
        name: "horchd".to_owned(),
        attribution: Attribution {
            name: "NewtTheWolf".to_owned(),
            url: "https://horchd.xyz".to_owned(),
        },
        installed: true,
        description: Some(description),
        version: Some(version),
        models,
    };
    let mut wake: Vec<WakeProgram> = Vec::new();
    wake.push(program);
    Info {
        asr: Vec::new(),
        tts: Vec::new(),
        handle: Vec::new(),
        intent: Vec::new(),
        wake,
        mic: Vec::new(),
        snd: Vec::new(),
        satellite: None,
    }
}

} // verus!
