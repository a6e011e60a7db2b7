use vstd::prelude::*;

verus! {

use vstd::string::StringSliceAdditionalSpecFns;
use vstd::string::StringExecFns;
use crate::text::{TextComponent, spec_text_json, spec_json_escape, spec_hex_char};
use crate::version::ProtocolVersion;

/// The decimal digits of a 32-bit value, most significant first.
pub open spec fn spec_dec_u32(v: u32) -> Seq<char>
    decreases v,
{
    if v < 10 {
        seq![spec_hex_char(v as int)]
    } else {
        spec_dec_u32(v / 10) + seq![spec_hex_char((v % 10) as int)]
    }
}

/// The decimal form of a signed 32-bit value.
pub open spec fn spec_dec_i32(v: i32) -> Seq<char> {
    if v >= 0 {
        spec_dec_u32(v as u32)
    } else {
        seq!['-'] + spec_dec_u32((0x1_0000_0000 - crate::utils::u32_of_i32(v)) as u32)
    }
}

fn dec_digit(d: u32) -> (r: &'static str)
    requires
        d < 10,
    ensures
        r@ == seq![spec_hex_char(d as int)],
{
    let s: &'static str = if d == 0 {
        "0"
    } else if d == 1 {
        "1"
    } else if d == 2 {
        "2"
    } else if d == 3 {
        "3"
    } else if d == 4 {
        "4"
    } else if d == 5 {
        "5"
    } else if d == 6 {
        "6"
    } else if d == 7 {
        "7"
    } else if d == 8 {
        "8"
    } else {
        "9"
    };
    proof {
        reveal_strlit("0");
        reveal_strlit("1");
        reveal_strlit("2");
        reveal_strlit("3");
        reveal_strlit("4");
        reveal_strlit("5");
        reveal_strlit("6");
        reveal_strlit("7");
        reveal_strlit("8");
        reveal_strlit("9");
        assert(s@ =~= seq![spec_hex_char(d as int)]);
    }
    s
}

/// A 32-bit value in decimal.
pub fn dec_u32(v: u32) -> (r: String)
    ensures
        r@ == spec_dec_u32(v),
    decreases v,
{
    if v < 10 {
        <String as StringExecFns>::from_str(dec_digit(v))
    } else {
        let mut s = dec_u32(v / 10);
        s.append(dec_digit(v % 10));
        proof {
            assert(s@ =~= spec_dec_u32(v));
        }
        s
    }
}

/// A signed 32-bit value in decimal.
pub fn dec_i32(v: i32) -> (r: String)
    ensures
        r@ == spec_dec_i32(v),
{
    if v >= 0 {
        dec_u32(v as u32)
    } else {
        let mag: u32 = if v == i32::MIN {
            0x8000_0000u32
        } else {
            (-v) as u32
        };
        proof {
            assert(mag == 0x1_0000_0000 - crate::utils::u32_of_i32(v));
        }
        let mut s = <String as StringExecFns>::from_str("-");
        s.append(dec_u32(mag).as_str());
        proof {
            reveal_strlit("-");
            assert(s@ =~= spec_dec_i32(v));
        }
        s
    }
}

/// The version block of the status object.
#[derive(Debug)]
pub struct StatusVersion {
    pub name: String,
    pub protocol: i32,
}

/// One entry of the player sample.
#[derive(Debug)]
pub struct PlayerSample {
    pub name: String,
    pub id: String,
}

impl PlayerSample {
    pub fn new(name: String, uuid: String) -> (r: PlayerSample)
        ensures
            r.name == name,
            r.id == uuid,
    {
        PlayerSample { name, id: uuid }
    }
}

/// The players block of the status object.
#[derive(Debug)]
pub struct StatusPlayers {
    pub max: i32,
    pub online: i32,
    pub sample: Vec<PlayerSample>,
}

/// Composes the JSON object advertised on a server-list ping.
#[derive(Debug)]
pub struct StatusBuilder {
    pub version: StatusVersion,
    pub players: Option<StatusPlayers>,
    pub description: Option<TextComponent>,
    pub favicon: Option<String>,
    pub secure_chat: bool,
    pub preview_chat: bool,
}

/// The sample entries as JSON from index `i` on.
pub open spec fn spec_sample_json(ps: Seq<PlayerSample>, i: int) -> Seq<char>
    decreases ps.len() - i,
{
    if i < 0 || i >= ps.len() {
        Seq::empty()
    } else {
        (if i > 0 {
            seq![',']
        } else {
            Seq::<char>::empty()
        }) + "{\"name\":\""@ + spec_json_escape(ps[i].name@) + "\",\"id\":\""@ + spec_json_escape(
            ps[i].id@,
        ) + "\"}"@ + spec_sample_json(ps, i + 1)
    }
}

/// The status JSON a builder serializes to.
pub open spec fn spec_status_json(b: StatusBuilder) -> Seq<char> {
    let s0 = "{\"version\":{\"name\":\""@ + spec_json_escape(b.version.name@) + "\",\"protocol\":"@
        + spec_dec_i32(b.version.protocol) + "}"@;
    let s1 = if b.players is Some {
        s0 + ",\"players\":{\"max\":"@ + spec_dec_i32(b.players->0.max) + ",\"online\":"@
            + spec_dec_i32(b.players->0.online) + ",\"sample\":["@ + spec_sample_json(
            b.players->0.sample@,
            0,
        ) + "]}"@
    } else {
        s0
    };
    let s2 = if b.description is Some {
        s1 + ",\"description\":"@ + spec_text_json(b.description->0)
    } else {
        s1
    };
    let s3 = if b.favicon is Some {
        s2 + ",\"favicon\":\""@ + spec_json_escape(b.favicon->0@) + "\""@
    } else {
        s2
    };
    s3 + ",\"enforcesSecureChat\":"@ + crate::text::spec_json_bool(b.secure_chat)
        + ",\"previewsChat\":"@ + crate::text::spec_json_bool(b.preview_chat) + "}"@
}

impl StatusBuilder {
    /// A fresh status for the given version: an empty player block, no
    /// description, no favicon, both chat flags off.
    pub fn new(version: ProtocolVersion) -> (r: StatusBuilder)
        ensures
            r.version.name@ == version.spec_name(),
            r.version.protocol == version.spec_id(),
            r.players matches Some(p) && p.max == 0 && p.online == 0 && p.sample@.len() == 0,
            r.description is None,
            r.favicon is None,
            !r.secure_chat,
            !r.preview_chat,
    {
        StatusBuilder {
            version: StatusVersion { name: version.get_name(), protocol: version.get_id() },
            players: Some(StatusPlayers { max: 0, online: 0, sample: Vec::new() }),
            description: None,
            favicon: None,
            secure_chat: false,
            preview_chat: false,
        }
    }

    pub fn with_description(&mut self, description: TextComponent)
        ensures
            final(self).description == Some(description),
            final(self).version == old(self).version,
            final(self).players == old(self).players,
            final(self).favicon == old(self).favicon,
            final(self).secure_chat == old(self).secure_chat,
            final(self).preview_chat == old(self).preview_chat,
    {
        self.description = Some(description);
    }

    pub fn with_plain_description(&mut self, description: &str)
        ensures
            final(self).description matches Some(d) && (d.text matches Some(t) && t@
                == description@) && d.kind@ == "text"@ && d.extra is None && d.color is None
                && d.bold is None,
            final(self).version == old(self).version,
            final(self).players == old(self).players,
            final(self).favicon == old(self).favicon,
            final(self).secure_chat == old(self).secure_chat,
            final(self).preview_chat == old(self).preview_chat,
    {
        let mut comp = TextComponent::new();
        comp.set_text(description);
        self.description = Some(comp);
    }

    /// Records the favicon as its finished data URI; decoding, scaling and
    /// re-encoding the image happen where the file is read.
    pub fn with_favicon(&mut self, data_uri: String)
        ensures
            final(self).favicon == Some(data_uri),
            final(self).version == old(self).version,
            final(self).players == old(self).players,
            final(self).description == old(self).description,
            final(self).secure_chat == old(self).secure_chat,
            final(self).preview_chat == old(self).preview_chat,
    {
        self.favicon = Some(data_uri);
    }

    pub fn with_secure_chat(&mut self)
        ensures
            final(self).secure_chat,
            final(self).version == old(self).version,
            final(self).players == old(self).players,
            final(self).description == old(self).description,
            final(self).favicon == old(self).favicon,
            final(self).preview_chat == old(self).preview_chat,
    {
        self.secure_chat = true;
    }

    pub fn with_chat_preview(&mut self)
        ensures
            final(self).preview_chat,
            final(self).version == old(self).version,
            final(self).players == old(self).players,
            final(self).description == old(self).description,
            final(self).favicon == old(self).favicon,
            final(self).secure_chat == old(self).secure_chat,
    {
        self.preview_chat = true;
    }

    pub fn with_player_sample(&mut self, max: i32, online: i32, sample: Vec<PlayerSample>)
        ensures
            final(self).players matches Some(p) && p.max == max && p.online == online && p.sample@
                == sample@,
            final(self).version == old(self).version,
            final(self).description == old(self).description,
            final(self).favicon == old(self).favicon,
            final(self).secure_chat == old(self).secure_chat,
            final(self).preview_chat == old(self).preview_chat,
    {
        self.players = Some(StatusPlayers { max, online, sample });
    }

    /// The status object as JSON text.
    #[verifier::rlimit(100)]
    #[verifier::spinoff_prover]
    pub fn finish(&self) -> (r: String)
        ensures
            r@ == spec_status_json(*self),
    {
        proof {
            reveal_strlit("{\"version\":{\"name\":\"");
            reveal_strlit("\",\"protocol\":");
            reveal_strlit("}");
            reveal_strlit(",\"players\":{\"max\":");
            reveal_strlit(",\"online\":");
            reveal_strlit(",\"sample\":[");
            reveal_strlit("]}");
            reveal_strlit(",\"description\":");
            reveal_strlit(",\"favicon\":\"");
            reveal_strlit("\"");
            reveal_strlit(",\"enforcesSecureChat\":");
            reveal_strlit(",\"previewsChat\":");
            reveal_strlit("true");
            reveal_strlit("false");
        }
        let mut out = String::new();
        out.append("{\"version\":{\"name\":\"");
        crate::text::append_json_escaped_pub(&mut out, self.version.name.as_str());
        out.append("\",\"protocol\":");
        out.append(dec_i32(self.version.protocol).as_str());
        out.append("}");
        let ghost g0 = "{\"version\":{\"name\":\""@ + spec_json_escape(self.version.name@)
            + "\",\"protocol\":"@ + spec_dec_i32(self.version.protocol) + "}"@;
        proof {
            assert(out@ == g0);
        }
        match &self.players {
            Some(p) => {
                out.append(",\"players\":{\"max\":");
                out.append(dec_i32(p.max).as_str());
                out.append(",\"online\":");
                out.append(dec_i32(p.online).as_str());
                out.append(",\"sample\":[");
                let ghost base = out@;
                let mut i: usize = 0;
                while i < p.sample.len()
                    invariant
                        i <= p.sample@.len(),
                        out@ + spec_sample_json(p.sample@, i as int) == base + spec_sample_json(
                            p.sample@,
                            0,
                        ),
                    decreases p.sample@.len() - i,
                {
                    proof {
                        reveal_strlit(",");
                        reveal_strlit("{\"name\":\"");
                        reveal_strlit("\",\"id\":\"");
                        reveal_strlit("\"}");
                    }
                    let ghost pre = out@;
                    if i > 0 {
                        out.append(",");
                    }
                    out.append("{\"name\":\"");
                    crate::text::append_json_escaped_pub(&mut out, p.sample[i].name.as_str());
                    out.append("\",\"id\":\"");
                    crate::text::append_json_escaped_pub(&mut out, p.sample[i].id.as_str());
                    out.append("\"}");
                    proof {
                        assert(out@ + spec_sample_json(p.sample@, i + 1) =~= pre
                            + spec_sample_json(p.sample@, i as int));
                    }
                    i = i + 1;
                }
                proof {
                    assert(spec_sample_json(p.sample@, p.sample@.len() as int) =~= Seq::<
                        char,
                    >::empty());
                    assert(out@ =~= base + spec_sample_json(p.sample@, 0));
                }
                out.append("]}");
            },
            None => {},
        }
        let ghost g1 = if self.players is Some {
            g0 + ",\"players\":{\"max\":"@ + spec_dec_i32(self.players->0.max) + ",\"online\":"@
                + spec_dec_i32(self.players->0.online) + ",\"sample\":["@ + spec_sample_json(
                self.players->0.sample@,
                0,
            ) + "]}"@
        } else {
            g0
        };
        proof {
            assert(out@ == g1);
        }
        match &self.description {
            Some(d) => {
                out.append(",\"description\":");
                let dj = d.to_json();
                out.append(dj.as_str());
            },
            None => {},
        }
        let ghost g2 = if self.description is Some {
            g1 + ",\"description\":"@ + spec_text_json(self.description->0)
        } else {
            g1
        };
        proof {
            assert(out@ == g2);
        }
        match &self.favicon {
            Some(f) => {
                out.append(",\"favicon\":\"");
                crate::text::append_json_escaped_pub(&mut out, f.as_str());
                out.append("\"");
            },
            None => {},
        }
        let ghost g3 = if self.favicon is Some {
            g2 + ",\"favicon\":\""@ + spec_json_escape(self.favicon->0@) + "\""@
        } else {
            g2
        };
        proof {
            assert(out@ == g3);
        }
        out.append(",\"enforcesSecureChat\":");
        out.append(if self.secure_chat { "true" } else { "false" });
        out.append(",\"previewsChat\":");
        out.append(if self.preview_chat { "true" } else { "false" });
        out.append("}");
        proof {
            assert(out@ == spec_status_json(*self));
        }
        out
    }
}

} // verus!
