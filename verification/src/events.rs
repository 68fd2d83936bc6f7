//! Command labels and the event stream of a command: the `start` event is
//! held back until a real event follows, and the human-readable log lines.
use vstd::prelude::*;
use crate::number::push_decimal;
use crate::text::{decimal, str_eq};

verus! {

/// A command with the output it names, as the `start` event reports it.
pub enum CommandTarget {
    ImageGenerate { out: String },
    ImageCrop { out: String },
    ImageGreenSource { out: String },
    ImageChromaKey { out: String },
    SpriteSheetSlice { out_dir: String },
    SpriteSheetPack { out: String },
    SpriteNormalize { out: String },
    VideoSlice { out_dir: String },
    AudioBgm { out: String },
    AudioSfx { out: Option<String>, out_dir: Option<String> },
    AudioTrim { out: String },
    AudioWaveform { out: String },
    ContactSheet { out: String },
    Manifest { out: String },
    Doctor,
    Upgrade,
}

pub open spec fn opt_string_view(o: Option<String>) -> Option<Seq<char>> {
    match o {
        Some(s) => Some(s@),
        None => None,
    }
}

/// The dotted command name and the output it writes, if it names one (for
/// `audio sfx`, `--out`, else `--out-dir`).
pub open spec fn label_spec(c: CommandTarget) -> (Seq<char>, Option<Seq<char>>) {
    match c {
        CommandTarget::ImageGenerate { out } => ("image.generate"@, Some(out@)),
        CommandTarget::ImageCrop { out } => ("image.crop"@, Some(out@)),
        CommandTarget::ImageGreenSource { out } => ("image.green-source"@, Some(out@)),
        CommandTarget::ImageChromaKey { out } => ("image.chroma-key"@, Some(out@)),
        CommandTarget::SpriteSheetSlice { out_dir } => ("sprite.sheet-slice"@, Some(out_dir@)),
        CommandTarget::SpriteSheetPack { out } => ("sprite.sheet-pack"@, Some(out@)),
        CommandTarget::SpriteNormalize { out } => ("sprite.normalize"@, Some(out@)),
        CommandTarget::VideoSlice { out_dir } => ("video.slice"@, Some(out_dir@)),
        CommandTarget::AudioBgm { out } => ("audio.bgm"@, Some(out@)),
        CommandTarget::AudioSfx { out, out_dir } => (
            "audio.sfx"@,
            if out is Some {
                opt_string_view(out)
            } else {
                opt_string_view(out_dir)
            },
        ),
        CommandTarget::AudioTrim { out } => ("audio.trim"@, Some(out@)),
        CommandTarget::AudioWaveform { out } => ("audio.waveform"@, Some(out@)),
        CommandTarget::ContactSheet { out } => ("contact-sheet"@, Some(out@)),
        CommandTarget::Manifest { out } => ("manifest"@, Some(out@)),
        CommandTarget::Doctor => ("doctor"@, None),
        CommandTarget::Upgrade => ("upgrade"@, None),
    }
}

fn labelled(name: &str, out: &String) -> (r: (String, Option<String>))
    ensures
        r.0@ == name@,
        r.1 matches Some(o) && o@ == out@,
{
    (String::from_str(name), Some(out.clone()))
}

pub fn command_label(c: &CommandTarget) -> (r: (String, Option<String>))
    ensures
        (r.0@, opt_string_view(r.1)) == label_spec(*c),
{
    match c {
        CommandTarget::ImageGenerate { out } => labelled("image.generate", out),
        CommandTarget::ImageCrop { out } => labelled("image.crop", out),
        CommandTarget::ImageGreenSource { out } => labelled("image.green-source", out),
        CommandTarget::ImageChromaKey { out } => labelled("image.chroma-key", out),
        CommandTarget::SpriteSheetSlice { out_dir } => labelled("sprite.sheet-slice", out_dir),
        CommandTarget::SpriteSheetPack { out } => labelled("sprite.sheet-pack", out),
        CommandTarget::SpriteNormalize { out } => labelled("sprite.normalize", out),
        CommandTarget::VideoSlice { out_dir } => labelled("video.slice", out_dir),
        CommandTarget::AudioBgm { out } => labelled("audio.bgm", out),
        CommandTarget::AudioSfx { out, out_dir } => {
            let o = match out {
                Some(o) => Some(o.clone()),
                None => match out_dir {
                    Some(d) => Some(d.clone()),
                    None => None,
                },
            };
            (String::from_str("audio.sfx"), o)
        },
        CommandTarget::AudioTrim { out } => labelled("audio.trim", out),
        CommandTarget::AudioWaveform { out } => labelled("audio.waveform", out),
        CommandTarget::ContactSheet { out } => labelled("contact-sheet", out),
        CommandTarget::Manifest { out } => labelled("manifest", out),
        CommandTarget::Doctor => (String::from_str("doctor"), None),
        CommandTarget::Upgrade => (String::from_str("upgrade"), None),
    }
}

/// One emitted event: its type and its payload.
pub open spec fn emitted_view<T>(v: Seq<(String, T)>) -> Seq<(Seq<char>, T)> {
    v.map_values(|e: (String, T)| (e.0@, e.1))
}

/// One step of the event stream: a `start` is held back; any other event
/// first releases a held `start`, then goes out itself.
pub open spec fn event_step<T>(pending: Option<T>, typ: Seq<char>, value: T) -> (Option<T>, Seq<(Seq<char>, T)>) {
    if typ == "start"@ {
        (Some(value), Seq::empty())
    } else {
        match pending {
            Some(s) => (None, seq![("start"@, s), (typ, value)]),
            None => (None, seq![(typ, value)]),
        }
    }
}

/// The events of a command in order, where `start` events wait for the
/// next real event.
pub struct EventQueue<T> {
    pending_start: Option<T>,
}

impl<T> EventQueue<T> {
    pub closed spec fn pending(&self) -> Option<T> {
        self.pending_start
    }

    pub fn new() -> (r: Self)
        ensures
            r.pending() is None,
    {
        EventQueue { pending_start: None }
    }

    /// Takes one event and returns what is to be emitted now, in order.
    pub fn event(&mut self, typ: &str, value: T) -> (r: Vec<(String, T)>)
        ensures
            (final(self).pending(), emitted_view(r@)) == event_step(old(self).pending(), typ@, value),
    {
        if str_eq(typ, "start") {
            self.pending_start = Some(value);
            let r: Vec<(String, T)> = Vec::new();
            assert(emitted_view(r@) =~= Seq::<(Seq<char>, T)>::empty());
            return r;
        }
        let mut out: Vec<(String, T)> = Vec::new();
        let held = self.pending_start.take();
        match held {
            Some(s) => {
                out.push((String::from_str("start"), s));
            },
            None => {},
        }
        out.push((String::from_str(typ), value));
        assert(emitted_view(out@) =~= event_step(old(self).pending(), typ@, value).1);
        out
    }
}

/// What a run of events emits, from an empty queue.
pub open spec fn run_events<T>(events: Seq<(Seq<char>, T)>) -> (Option<T>, Seq<(Seq<char>, T)>)
    decreases events.len(),
{
    if events.len() == 0 {
        (None, Seq::empty())
    } else {
        let (pending, out) = run_events(events.drop_last());
        let (p2, more) = event_step(pending, events.last().0, events.last().1);
        (p2, out + more)
    }
}

/// Every emitted `start` is followed by a real (non-`start`) event.
pub open spec fn start_is_followed<T>(out: Seq<(Seq<char>, T)>) -> bool {
    forall|k: int|
        0 <= k < out.len() && (#[trigger] out[k]).0 == "start"@ ==> k + 1 < out.len() && out[k + 1].0
            != "start"@
}

/// A `start` event never reaches the output on its own: it appears only
/// immediately before the first real event after it, so a command that
/// fails before doing anything emits no `start`.
pub proof fn law_start_never_alone<T>(events: Seq<(Seq<char>, T)>)
    ensures
        start_is_followed(run_events(events).1),
    decreases events.len(),
{
    if events.len() > 0 {
        law_start_never_alone(events.drop_last());
        let (pending, out) = run_events(events.drop_last());
        let (p2, more) = event_step(pending, events.last().0, events.last().1);
        let all = out + more;
        assert(start_is_followed(more));
        assert forall|k: int| 0 <= k < all.len() && (#[trigger] all[k]).0 == "start"@ implies k + 1 < all.len()
            && all[k + 1].0 != "start"@ by {
            if k < out.len() {
                assert(all[k] == out[k]);
                assert(all[k + 1] == out[k + 1]);
            } else {
                assert(all[k] == more[k - out.len()]);
                assert(all[k + 1] == more[k + 1 - out.len()]);
            }
        }
    }
}

/// The fields of an event that the human-readable log shows.
#[derive(Debug)]
pub struct EventFields {
    pub path: Option<String>,
    pub provider: Option<String>,
    pub dry_run: Option<bool>,
    pub timeout_seconds: Option<u64>,
    pub message: Option<String>,
}

/// The log line for an event when machine output is off: written
/// artifacts, provider requests and warnings; other events are silent.
pub open spec fn human_line_spec(typ: Seq<char>, f: EventFields) -> Option<Seq<char>> {
    if typ == "artifact"@ {
        match f.path {
            Some(p) => Some("wrote "@ + p@),
            None => None,
        }
    } else if typ == "provider_request"@ {
        match f.provider {
            Some(p) => if f.dry_run == Some(true) {
                Some("planned provider request: "@ + p@)
            } else {
                match f.timeout_seconds {
                    Some(t) => Some("running "@ + p@ + " (timeout "@ + decimal(t as nat) + "s)"@),
                    None => Some("running "@ + p@),
                }
            },
            None => None,
        }
    } else if typ == "warning"@ {
        match f.message {
            Some(m) => Some("warning: "@ + m@),
            None => None,
        }
    } else {
        None
    }
}

pub fn human_line(typ: &str, f: &EventFields) -> (r: Option<String>)
    ensures
        opt_string_view(r) == human_line_spec(typ@, *f),
{
    if str_eq(typ, "artifact") {
        match &f.path {
            Some(p) => {
                let mut s = String::from_str("wrote ");
                s.append(p.as_str());
                Some(s)
            },
            None => None,
        }
    } else if str_eq(typ, "provider_request") {
        match &f.provider {
            Some(p) => {
                let dry = match f.dry_run {
                    Some(d) => d,
                    None => false,
                };
                if dry {
                    let mut s = String::from_str("planned provider request: ");
                    s.append(p.as_str());
                    Some(s)
                } else {
                    let mut s = String::from_str("running ");
                    s.append(p.as_str());
                    match f.timeout_seconds {
                        Some(t) => {
                            s.append(" (timeout ");
                            push_decimal(&mut s, t);
                            s.append("s)");
                        },
                        None => {},
                    }
                    Some(s)
                }
            },
            None => None,
        }
    } else if str_eq(typ, "warning") {
        match &f.message {
            Some(m) => {
                let mut s = String::from_str("warning: ");
                s.append(m.as_str());
                Some(s)
            },
            None => None,
        }
    } else {
        None
    }
}

} // verus!
