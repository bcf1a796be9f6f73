use vstd::prelude::*;
use vstd::string::*;
use vstd::utf8::encode_utf8;
use crate::color::Color;
use crate::settings::{AppConfig, AppSettings, config_key, secret_key, lemma_config_keys_distinct};

verus! {

// ---------------------------------------------------------------------------------------
// Entertainment stream packets
// ---------------------------------------------------------------------------------------

/// The two bytes of `x`, most significant first.
pub open spec fn be_bytes(x: u16) -> Seq<u8> {
    seq![(x / 256) as u8, (x % 256) as u8]
}

/// The fixed part of a stream header: the protocol name "HueStream", protocol version 2.0,
/// sequence number 0, two reserved bytes, colour space RGB (0) and one reserved byte.
pub open spec fn protocol_prefix() -> Seq<u8> {
    seq![0x48u8, 0x75, 0x65, 0x53, 0x74, 0x72, 0x65, 0x61, 0x6d, 0x02, 0x00, 0x00, 0x00, 0x00, 0x00, 0x00]
}

/// The header of every stream message: the fixed prefix followed by the entertainment
/// configuration id.
pub open spec fn stream_header(config_id: Seq<u8>) -> Seq<u8> {
    protocol_prefix() + config_id
}

/// The stream header is the 16 bytes `HueStream`, version 2.0, sequence 0, two reserved
/// bytes, colour space RGB and one more reserved byte, followed by the whole
/// entertainment configuration id, nothing cut or added.
pub proof fn lemma_stream_header_layout(config_id: Seq<u8>)
    ensures
        stream_header(config_id).len() == 16 + config_id.len(),
        stream_header(config_id).subrange(0, 16) == seq![
            0x48u8, 0x75, 0x65, 0x53, 0x74, 0x72, 0x65, 0x61, 0x6d, 0x02, 0x00, 0x00, 0x00, 0x00, 0x00, 0x00,
        ],
        stream_header(config_id).subrange(16, stream_header(config_id).len() as int) == config_id,
{
    assert(stream_header(config_id).subrange(0, 16) =~= seq![
        0x48u8, 0x75, 0x65, 0x53, 0x74, 0x72, 0x65, 0x61, 0x6d, 0x02, 0x00, 0x00, 0x00, 0x00, 0x00, 0x00,
    ]);
    assert(stream_header(config_id).subrange(16, stream_header(config_id).len() as int) =~= config_id);
}

/// The per-message payload: channel 0 with the first colour, then channel 1 with the
/// second, each channel as a 16-bit big-endian value in R, G, B order.
pub open spec fn color_message(colors: [Color; 2]) -> Seq<u8> {
    seq![0u8] + be_bytes(colors[0].r) + be_bytes(colors[0].g) + be_bytes(colors[0].b) + seq![1u8]
        + be_bytes(colors[1].r) + be_bytes(colors[1].g) + be_bytes(colors[1].b)
}

/// The colour payload always has 14 bytes, and each 16-bit channel can be read back
/// from its two bytes: the encoding loses nothing.
pub proof fn lemma_color_message_decodes(colors: [Color; 2])
    ensures
        color_message(colors).len() == 14,
        color_message(colors)[0] == 0,
        color_message(colors)[7] == 1,
        color_message(colors)[1] * 256 + color_message(colors)[2] == colors[0].r,
        color_message(colors)[3] * 256 + color_message(colors)[4] == colors[0].g,
        color_message(colors)[5] * 256 + color_message(colors)[6] == colors[0].b,
        color_message(colors)[8] * 256 + color_message(colors)[9] == colors[1].r,
        color_message(colors)[10] * 256 + color_message(colors)[11] == colors[1].g,
        color_message(colors)[12] * 256 + color_message(colors)[13] == colors[1].b,
{
    let m = color_message(colors);
    assert(m =~= seq![
        0u8,
        (colors[0].r / 256) as u8, (colors[0].r % 256) as u8,
        (colors[0].g / 256) as u8, (colors[0].g % 256) as u8,
        (colors[0].b / 256) as u8, (colors[0].b % 256) as u8,
        1u8,
        (colors[1].r / 256) as u8, (colors[1].r % 256) as u8,
        (colors[1].g / 256) as u8, (colors[1].g % 256) as u8,
        (colors[1].b / 256) as u8, (colors[1].b % 256) as u8,
    ]);
}

/// The reusable buffer of the entertainment stream: a fixed header, to which the colour
/// payload is appended for each message and removed again once it has been sent.
pub struct HueStream {
    packet: Vec<u8>,
    header_len: usize,
}

impl HueStream {
    /// The header is a prefix of the buffer.
    pub closed spec fn wf(&self) -> bool {
        self.header_len <= self.packet@.len()
    }

    /// The message header.
    pub closed spec fn header(&self) -> Seq<u8> {
        self.packet@.subrange(0, self.header_len as int)
    }

    /// The current contents of the buffer.
    pub closed spec fn contents(&self) -> Seq<u8> {
        self.packet@
    }

    /// A buffer holding just the header for the given entertainment configuration.
    pub fn new(config_id: &str) -> (s: HueStream)
        ensures
            s.wf(),
            s.header() == stream_header(config_id.spec_bytes()),
            s.contents() == s.header(),
    {
        let mut packet: Vec<u8> = Vec::new();
        // protocol name
        packet.push(0x48);
        packet.push(0x75);
        packet.push(0x65);
        packet.push(0x53);
        packet.push(0x74);
        packet.push(0x72);
        packet.push(0x65);
        packet.push(0x61);
        packet.push(0x6d);
        // version
        packet.push(0x02);
        packet.push(0x00);
        // sequence
        packet.push(0x00);
        // reserved
        packet.push(0x00);
        packet.push(0x00);
        // colour space: RGB
        packet.push(0x00);
        // reserved
        packet.push(0x00);
        assert(packet@ =~= protocol_prefix());
        packet.extend_from_slice(config_id.as_bytes());
        let header_len = packet.len();
        let s = HueStream { packet, header_len };
        assert(s.contents() =~= stream_header(config_id.spec_bytes()));
        assert(s.header() =~= s.contents());
        s
    }

    /// A buffer for the entertainment configuration named in the settings.
    pub fn from_config(config: &AppConfig) -> (s: HueStream)
        requires
            config.wf(),
        ensures
            s.wf(),
            s.header() == stream_header(encode_utf8(config@.values[3])),
            s.contents() == s.header(),
    {
        proof {
            reveal_strlit("ENTERTAINMENT_CONFIG_ID");
            lemma_config_keys_distinct();
            config.lemma_len();
        }
        let keys = ["ENTERTAINMENT_CONFIG_ID"];
        assert(config_key(3) == keys@[0]@);
        match config.get(keys.as_slice()) {
            Ok(ids) => HueStream::new(ids[0].as_str()),
            Err(_) => {
                assert(false);
                HueStream::new("")
            },
        }
    }

    /// Appends the colour payload for the two channels.
    pub fn push_colors(&mut self, colors: &[Color; 2])
        requires
            old(self).wf(),
        ensures
            final(self).wf(),
            final(self).header() == old(self).header(),
            final(self).contents() == old(self).contents() + color_message(*colors),
    {
        let c0 = colors[0];
        let c1 = colors[1];
        self.packet.push(0x00);
        self.push_be(c0.r);
        self.push_be(c0.g);
        self.push_be(c0.b);
        self.packet.push(0x01);
        self.push_be(c1.r);
        self.push_be(c1.g);
        self.push_be(c1.b);
        assert(self.contents() =~= old(self).contents() + color_message(*colors));
        assert(self.header() =~= old(self).header());
    }

    fn push_be(&mut self, x: u16)
        requires
            old(self).wf(),
        ensures
            final(self).wf(),
            final(self).header_len == old(self).header_len,
            final(self).contents() == old(self).contents() + be_bytes(x),
    {
        self.packet.push((x / 256) as u8);
        self.packet.push((x % 256) as u8);
        assert(self.contents() =~= old(self).contents() + be_bytes(x));
    }

    /// Drops everything after the header, ready for the next message.
    pub fn truncate_to_header(&mut self)
        requires
            old(self).wf(),
        ensures
            final(self).wf(),
            final(self).header() == old(self).header(),
            final(self).contents() == old(self).header(),
    {
        self.packet.truncate(self.header_len);
        assert(self.header() =~= old(self).header());
    }

    /// The bytes to send.
    pub fn packet(&self) -> (p: &[u8])
        ensures
            p@ == self.contents(),
    {
        self.packet.as_slice()
    }

    /// The length of the header.
    pub fn header_len(&self) -> (n: usize)
        requires
            self.wf(),
        ensures
            n == self.header().len(),
    {
        self.header_len
    }
}

// ---------------------------------------------------------------------------------------
// Bridge addresses
// ---------------------------------------------------------------------------------------

/// The REST resource of an entertainment configuration on the bridge.
pub fn entertainment_configuration_url(bridge_ip: &str, config_id: &str) -> (url: String)
    ensures
        url@ == "https://"@ + bridge_ip@ + "/clip/v2/resource/entertainment_configuration/"@ + config_id@,
{
    let mut url = String::from_str("https://");
    url.append(bridge_ip);
    url.append("/clip/v2/resource/entertainment_configuration/");
    url.append(config_id);
    url
}

/// The REST resource of a light on the bridge.
pub fn light_url(bridge_ip: &str, light_id: &str) -> (url: String)
    ensures
        url@ == "https://"@ + bridge_ip@ + "/clip/v2/resource/light/"@ + light_id@,
{
    let mut url = String::from_str("https://");
    url.append(bridge_ip);
    url.append("/clip/v2/resource/light/");
    url.append(light_id);
    url
}

/// What to ask of an entertainment configuration.
#[derive(Clone, Copy, Debug, PartialEq, Eq, Structural)]
pub enum EntertainmentAction {
    Start,
    Stop,
}

impl EntertainmentAction {
    /// The word the bridge expects for the action.
    pub fn as_str(self) -> (word: &'static str)
        ensures
            self == EntertainmentAction::Start ==> word@ == "start"@,
            self == EntertainmentAction::Stop ==> word@ == "stop"@,
    {
        match self {
            EntertainmentAction::Start => "start",
            EntertainmentAction::Stop => "stop",
        }
    }
}

// ---------------------------------------------------------------------------------------
// Hexadecimal keys
// ---------------------------------------------------------------------------------------

/// Why a hexadecimal string could not be decoded.
#[derive(Clone, Copy, Debug, PartialEq, Eq, Structural)]
pub enum HexError {
    /// The byte at `index`, shown as `c`, is not a hexadecimal digit.
    InvalidHexCharacter { c: char, index: usize },
    /// The string has an odd number of bytes.
    OddLength,
    /// The decoded length does not fit the destination.
    InvalidStringLength,
}

/// The value of a hexadecimal digit (`0-9`, `a-f`, `A-F`), or -1 for any other byte.
pub open spec fn hex_digit_value(b: u8) -> int {
    if 0x30 <= b <= 0x39 {
        b - 0x30
    } else if 0x41 <= b <= 0x46 {
        b - 0x41 + 10
    } else if 0x61 <= b <= 0x66 {
        b - 0x61 + 10
    } else {
        -1
    }
}

/// Whether `b` is a hexadecimal digit.
pub open spec fn is_hex_digit(b: u8) -> bool {
    hex_digit_value(b) >= 0
}

/// Whether every byte of `s` is a hexadecimal digit.
pub open spec fn all_hex_digits(s: Seq<u8>) -> bool {
    forall|i: int| 0 <= i < s.len() ==> #[trigger] is_hex_digit(s[i])
}

/// The bytes that a string of hexadecimal digit pairs stands for, high digit first.
pub open spec fn hex_bytes(s: Seq<u8>) -> Seq<u8> {
    Seq::new(
        (s.len() / 2) as nat,
        |i: int| (hex_digit_value(s[2 * i]) * 16 + hex_digit_value(s[2 * i + 1])) as u8,
    )
}

/// The position of the first byte of `s` that is not a hexadecimal digit.
pub open spec fn first_non_hex(s: Seq<u8>) -> int {
    choose|i: int|
        0 <= i < s.len() && !is_hex_digit(s[i]) && forall|j: int| 0 <= j < i ==> #[trigger] is_hex_digit(s[j])
}

/// The outcome of decoding `s` as hexadecimal: an odd length fails first; otherwise the
/// first byte that is not a digit fails; otherwise the digit pairs give the bytes.
pub open spec fn hex_outcome(s: Seq<u8>) -> Result<Seq<u8>, HexError> {
    if s.len() % 2 != 0 {
        Err(HexError::OddLength)
    } else if all_hex_digits(s) {
        Ok(hex_bytes(s))
    } else {
        Err(HexError::InvalidHexCharacter { c: s[first_non_hex(s)] as char, index: first_non_hex(s) as usize })
    }
}

/// Whether `res` is the decoding outcome `hex_outcome(s)`.
pub open spec fn decodes_as(res: Result<Vec<u8>, HexError>, s: Seq<u8>) -> bool {
    match res {
        Ok(v) => hex_outcome(s) matches Ok(w) && v@ == w,
        Err(e) => hex_outcome(s) == Err::<Seq<u8>, HexError>(e),
    }
}

/// Calls `hex::decode`. The hex crate's decoder rejects an odd length before looking at any
/// byte, then decodes the pairs in order, failing on the first byte that is not one of
/// `0-9`, `a-f`, `A-F` and reporting that byte and its position; otherwise each pair gives
/// the byte `high * 16 + low`.
#[verifier::external_body]
fn hex_decode(data: &[u8]) -> (res: Result<Vec<u8>, HexError>)
    ensures
        decodes_as(res, data@),
{
    match hex::decode(data) {
        Ok(v) => Ok(v),
        Err(hex::FromHexError::InvalidHexCharacter { c, index }) => Err(HexError::InvalidHexCharacter { c, index }),
        Err(hex::FromHexError::OddLength) => Err(HexError::OddLength),
        Err(hex::FromHexError::InvalidStringLength) => Err(HexError::InvalidStringLength),
    }
}

// ---------------------------------------------------------------------------------------
// Entertainment session parameters
// ---------------------------------------------------------------------------------------

/// The settings that an entertainment session is started with.
pub struct EntertainmentTarget {
    pub client_key: String,
    pub bridge_ip: String,
    pub bridge_port: String,
    pub app_id: String,
    pub config_id: String,
}

impl EntertainmentTarget {
    /// Collects the client key (a secret), and the bridge address, bridge port, app id and
    /// entertainment configuration id (configuration fields).
    pub fn from_settings(settings: &AppSettings) -> (t: EntertainmentTarget)
        requires
            settings.wf(),
        ensures
            t.client_key@ == settings.secrets@.values[1],
            t.bridge_ip@ == settings.config@.values[0],
            t.bridge_port@ == settings.config@.values[1],
            t.app_id@ == settings.config@.values[2],
            t.config_id@ == settings.config@.values[3],
    {
        proof {
            reveal_strlit("CLIENT_KEY");
            reveal_strlit("APP_KEY");
            reveal_strlit("BRIDGE_ADDRESS");
            reveal_strlit("BRIDGE_PORT");
            reveal_strlit("APP_ID");
            reveal_strlit("ENTERTAINMENT_CONFIG_ID");
            lemma_config_keys_distinct();
            settings.config.lemma_len();
            settings.secrets.lemma_len();
        }
        let secret_keys = ["CLIENT_KEY"];
        assert(secret_key(1) == secret_keys@[0]@);
        assert(secret_key(0) != secret_keys@[0]@);
        let client_key = match settings.secrets.get(secret_keys.as_slice()) {
            Ok(v) => v[0].clone(),
            Err(_) => {
                assert(false);
                String::new()
            },
        };
        let keys = ["BRIDGE_ADDRESS", "BRIDGE_PORT", "APP_ID", "ENTERTAINMENT_CONFIG_ID"];
        assert(config_key(0) == keys@[0]@);
        assert(config_key(1) == keys@[1]@);
        assert(config_key(2) == keys@[2]@);
        assert(config_key(3) == keys@[3]@);
        match settings.config.get(keys.as_slice()) {
            Ok(v) => EntertainmentTarget {
                client_key,
                bridge_ip: v[0].clone(),
                bridge_port: v[1].clone(),
                app_id: v[2].clone(),
                config_id: v[3].clone(),
            },
            Err(_) => {
                assert(forall|k: int| 0 <= k < 4 ==> (#[trigger] keys@[k]@) == config_key(k));
                assert(false);
                EntertainmentTarget {
                    client_key,
                    bridge_ip: String::new(),
                    bridge_port: String::new(),
                    app_id: String::new(),
                    config_id: String::new(),
                }
            },
        }
    }

    /// The address of the bridge's entertainment endpoint: `ip:port`.
    pub fn socket_address(&self) -> (addr: String)
        ensures
            addr@ == self.bridge_ip@ + ":"@ + self.bridge_port@,
    {
        let mut addr = String::from_str(self.bridge_ip.as_str());
        addr.append(":");
        addr.append(self.bridge_port.as_str());
        addr
    }

    /// The REST resource of the entertainment configuration.
    pub fn configuration_url(&self) -> (url: String)
        ensures
            url@ == "https://"@ + self.bridge_ip@ + "/clip/v2/resource/entertainment_configuration/"@
                + self.config_id@,
    {
        entertainment_configuration_url(self.bridge_ip.as_str(), self.config_id.as_str())
    }

    /// The pre-shared key of the stream: the client key decoded from hexadecimal.
    pub fn psk(&self) -> (key: Result<Vec<u8>, HexError>)
        ensures
            decodes_as(key, encode_utf8(self.client_key@)),
    {
        hex_decode(self.client_key.as_str().as_bytes())
    }

    /// The identity hint of the stream: the app id's bytes.
    pub fn psk_identity_hint(&self) -> (hint: Vec<u8>)
        ensures
            hint@ == encode_utf8(self.app_id@),
    {
        let mut hint: Vec<u8> = Vec::new();
        hint.extend_from_slice(self.app_id.as_str().as_bytes());
        assert(hint@ =~= encode_utf8(self.app_id@));
        hint
    }
}

// ---------------------------------------------------------------------------------------
// Lamp snapshots
// ---------------------------------------------------------------------------------------

/// The ids that a list of light services names, skipping services without an id.
pub open spec fn named_ids(rids: Seq<Option<String>>) -> Seq<Seq<char>>
    decreases rids.len(),
{
    if rids.len() == 0 {
        Seq::empty()
    } else {
        let rest = named_ids(rids.drop_last());
        match rids.last() {
            Some(id) => rest.push(id@),
            None => rest,
        }
    }
}

/// Every light service with an id contributes that id, in order, and one without
/// contributes nothing: no services give no ids, one more service with id `x` adds `x` at
/// the end, one more without an id adds nothing.
pub proof fn lemma_named_ids_steps(rids: Seq<Option<String>>, x: String)
    ensures
        named_ids(Seq::empty()) == Seq::<Seq<char>>::empty(),
        named_ids(rids.push(Some(x))) == named_ids(rids).push(x@),
        named_ids(rids.push(None)) == named_ids(rids),
{
    assert(rids.push(Some(x)).drop_last() =~= rids);
    assert(rids.push(None::<String>).drop_last() =~= rids);
}

/// The number of services that carry an id.
pub open spec fn count_named(rids: Seq<Option<String>>) -> nat
    decreases rids.len(),
{
    if rids.len() == 0 {
        0
    } else {
        count_named(rids.drop_last()) + if rids.last() is Some {
            1nat
        } else {
            0nat
        }
    }
}

/// There is one id per service that carries one, and the id of every such service occurs
/// among them.
pub proof fn lemma_named_ids_complete(rids: Seq<Option<String>>, i: int)
    ensures
        named_ids(rids).len() == count_named(rids),
        0 <= i < rids.len() && rids[i] is Some ==> named_ids(rids).contains((rids[i]->0)@),
    decreases rids.len(),
{
    if rids.len() > 0 {
        let init = rids.drop_last();
        lemma_named_ids_complete(init, i);
        if 0 <= i < rids.len() - 1 && rids[i] is Some {
            assert(init[i] == rids[i]);
            let j = choose|j: int| 0 <= j < named_ids(init).len() && named_ids(init)[j] == (rids[i]->0)@;
            if rids.last() is Some {
                assert(named_ids(rids)[j] == (rids[i]->0)@);
            }
        }
        if i == rids.len() - 1 && rids[i] is Some {
            assert(named_ids(rids)[named_ids(rids).len() - 1] == (rids[i]->0)@);
        }
    }
}

/// The light ids of an entertainment configuration's light services, in order; services
/// that carry no id are skipped.
pub fn light_ids(rids: Vec<Option<String>>) -> (ids: Vec<String>)
    ensures
        ids@.map_values(|id: String| id@) == named_ids(rids@),
{
    let mut ids: Vec<String> = Vec::new();
    let mut i: usize = 0;
    while i < rids.len()
        invariant
            i <= rids@.len(),
            ids@.map_values(|id: String| id@) == named_ids(rids@.take(i as int)),
        decreases rids@.len() - i,
    {
        assert(rids@.take(i + 1).drop_last() =~= rids@.take(i as int));
        match &rids[i] {
            Some(id) => {
                ids.push(id.clone());
            },
            None => {},
        }
        assert(ids@.map_values(|id: String| id@) =~= named_ids(rids@.take(i + 1)));
        i = i + 1;
    }
    assert(rids@.take(rids@.len() as int) =~= rids@);
    ids
}

/// Which colour setting of a lamp to restore.
#[derive(Clone, Copy, Debug, PartialEq, Eq, Structural)]
pub enum ColorMode {
    /// The lamp was in white mode: restore its colour temperature.
    ColorTemperature,
    /// The lamp was in colour mode: restore its CIE xy colour.
    ColorXy,
}

/// The integer part of a lamp's state before the entertainment session took it over.
/// Brightness and xy colour are fractional and are kept beside it by the caller.
pub struct LampState {
    pub id: String,
    pub on: bool,
    /// Colour temperature in mirek.
    pub color_temperature: Option<u32>,
    pub color_mode: ColorMode,
}

/// The parts of a lamp restore request: the on/off state always, and each of brightness,
/// colour temperature and xy colour when it is to be sent.
#[derive(Clone, Copy, Debug, PartialEq, Eq, Structural)]
pub struct RestoreRequest {
    pub on: bool,
    pub brightness: bool,
    pub color_temperature: Option<u32>,
    pub color_xy: bool,
}

impl LampState {
    /// Reads a lamp's state from the bridge's answer: a missing on/off flag counts as off;
    /// the colour temperature is kept in its low 32 bits; the lamp is in white mode exactly
    /// when the bridge reports its colour temperature as valid.
    pub fn from_reading(id: &str, on: Option<bool>, mirek: Option<u64>, mirek_valid: Option<bool>) -> (s:
        LampState)
        ensures
            s.id@ == id@,
            s.on == (on == Some(true)),
            s.color_temperature == match mirek {
                Some(m) => Some(m as u32),
                None => None::<u32>,
            },
            s.color_mode == if mirek_valid == Some(true) {
                ColorMode::ColorTemperature
            } else {
                ColorMode::ColorXy
            },
    {
        let on = match on {
            Some(b) => b,
            None => false,
        };
        let color_temperature = match mirek {
            Some(m) => Some(m as u32),
            None => None,
        };
        let valid = match mirek_valid {
            Some(b) => b,
            None => false,
        };
        let color_mode = if valid {
            ColorMode::ColorTemperature
        } else {
            ColorMode::ColorXy
        };
        LampState { id: id.to_owned(), on, color_temperature, color_mode }
    }

    /// What to send to put the lamp back: its on/off state; its brightness when one was
    /// read; in white mode its colour temperature when one was read; in colour mode its
    /// xy colour when one was read.
    pub fn restore_request(&self, has_brightness: bool, has_xy: bool) -> (r: RestoreRequest)
        ensures
            r.on == self.on,
            r.brightness == has_brightness,
            r.color_temperature == if self.color_mode == ColorMode::ColorTemperature {
                self.color_temperature
            } else {
                None
            },
            r.color_xy == (self.color_mode == ColorMode::ColorXy && has_xy),
    {
        match self.color_mode {
            ColorMode::ColorTemperature => RestoreRequest {
                on: self.on,
                brightness: has_brightness,
                color_temperature: self.color_temperature,
                color_xy: false,
            },
            ColorMode::ColorXy => RestoreRequest {
                on: self.on,
                brightness: has_brightness,
                color_temperature: None,
                color_xy: has_xy,
            },
        }
    }
}

} // verus!
