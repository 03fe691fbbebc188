//! What is reported for a matching line, and the message that carries it.
use vstd::prelude::*;
use vstd::string::StringExecFns;

verus! {

/// The name under which messages are posted.
pub open spec fn sender_name() -> Seq<char> {
    "RustEx"@
}

/// The picture shown beside the name.
pub open spec fn sender_avatar() -> Seq<char> {
    "https://rustacean.net/assets/rustacean-flat-happy.png"@
}

/// The colour of the message's side bar.
pub const EMBED_COLOR: u32 = 0x3498DB;

/// The heading of a message: the file the line was found in.
pub open spec fn embed_title(filename: Seq<char>) -> Seq<char> {
    "File: "@ + filename
}

/// The body of a message: the line, set as a code block.
pub open spec fn embed_description(line: Seq<char>) -> Seq<char> {
    "```rust\n"@ + line + "\n```"@
}

/// The foot of a message: when the line was seen.
pub open spec fn embed_footer(timestamp: Seq<char>) -> Seq<char> {
    "Timestamp: "@ + timestamp
}

/// A line that matched: where it was found, what it says, and when it was
/// seen (an RFC 3339 timestamp).
pub struct MatchEvent {
    pub source_path: String,
    pub line_text: String,
    pub observed_at: String,
}

/// The foot of an embed.
pub struct Footer {
    pub text: String,
}

/// The one block of content of a message.
pub struct Embed {
    pub title: String,
    pub description: String,
    pub color: u32,
    pub footer: Footer,
}

/// The message posted to the webhook for one matching line.
pub struct WebhookPayload {
    pub username: String,
    pub avatar_url: String,
    pub embeds: Vec<Embed>,
}

/// The least number of characters of a timestamp: a date of ten, the
/// letter `T`, a time to the second of eight, and an offset from UTC in
/// hours and minutes of six.
pub const TIMESTAMP_MIN_LEN: usize = 25;

/// Whether a text is as long as a timestamp is at least.
pub open spec fn timestamp_sized(text: Seq<char>) -> bool {
    text.len() >= TIMESTAMP_MIN_LEN
}

/// The time of the call as an RFC 3339 timestamp: the clock of std,
/// `std::time::SystemTime::now`, turned into a `chrono::DateTime<Utc>` by
/// chrono's `From<SystemTime>`, which counts backwards for a clock that
/// stands before 1970, and written by `DateTime::to_rfc3339`. The text
/// depends on the clock, so only what chrono's writer puts out for every
/// time is claimed: the year in at least four characters, `-MM-DDT`,
/// `HH:MM:SS`, an optional fraction of the second, and the offset as a
/// sign, two digits, a colon and two digits.
#[verifier::external_body]
fn current_timestamp() -> (stamp: String)
    ensures
        stamp@.len() >= TIMESTAMP_MIN_LEN,
{
    chrono::DateTime::<chrono::Utc>::from(std::time::SystemTime::now()).to_rfc3339()
}

impl MatchEvent {
    /// An event with the given time of observation.
    pub fn new(source_path: &str, line_text: String, observed_at: String) -> (event: MatchEvent)
        ensures
            event.source_path@ == source_path@,
            event.line_text == line_text,
            event.observed_at == observed_at,
    {
        MatchEvent { source_path: source_path.to_owned(), line_text, observed_at }
    }

    /// An event for a line seen now. Source and line are as given; the
    /// time is the clock's, as a timestamp.
    pub fn observe(source_path: &str, line_text: String) -> (event: MatchEvent)
        ensures
            event.source_path@ == source_path@,
            event.line_text == line_text,
            timestamp_sized(event.observed_at@),
    {
        MatchEvent::new(source_path, line_text, current_timestamp())
    }

    /// What a tested line gives rise to: an event, seen now, where the
    /// pattern matched, and nothing where it did not.
    pub fn report(source_path: &str, line_text: String, matched: bool) -> (event: Option<
        MatchEvent,
    >)
        ensures
            event is Some <==> matched,
            event matches Some(e) ==> e.source_path@ == source_path@ && e.line_text == line_text
                && timestamp_sized(e.observed_at@),
    {
        if matched {
            Some(MatchEvent::observe(source_path, line_text))
        } else {
            None
        }
    }

    /// The message for this event.
    pub fn payload(&self) -> (payload: WebhookPayload)
        ensures
            payload.is_for(self.source_path@, self.line_text@, self.observed_at@),
    {
        build_payload(self.source_path.as_str(), self.line_text.as_str(), self.observed_at.as_str())
    }
}

impl WebhookPayload {
    /// Whether this is the message for the given file, line and time.
    pub open spec fn is_for(
        &self,
        filename: Seq<char>,
        line: Seq<char>,
        timestamp: Seq<char>,
    ) -> bool {
        &&& self.username@ == sender_name()
        &&& self.avatar_url@ == sender_avatar()
        &&& self.embeds@.len() == 1
        &&& self.embeds@[0].title@ == embed_title(filename)
        &&& self.embeds@[0].description@ == embed_description(line)
        &&& self.embeds@[0].color == EMBED_COLOR
        &&& self.embeds@[0].footer.text@ == embed_footer(timestamp)
    }
}

/// Builds the message for a line of `filename` seen at `timestamp`.
pub fn build_payload(filename: &str, line: &str, timestamp: &str) -> (payload: WebhookPayload)
    ensures
        payload.is_for(filename@, line@, timestamp@),
{
    let mut title = "File: ".to_owned();
    title.append(filename);
    let mut description = "```rust\n".to_owned();
    description.append(line);
    description.append("\n```");
    let mut footer_text = "Timestamp: ".to_owned();
    footer_text.append(timestamp);
    let mut embeds: Vec<Embed> = Vec::new();
    embeds.push(Embed { title, description, color: EMBED_COLOR, footer: Footer { text: footer_text } });
    WebhookPayload {
        username: "RustEx".to_owned(),
        avatar_url: "https://rustacean.net/assets/rustacean-flat-happy.png".to_owned(),
        embeds,
    }
}

} // verus!
