//! Data model of the export-archive analysis: channels, messages, users,
//! payments, and the immutable result snapshot produced by one extraction run.
use vstd::prelude::*;

verus! {

/// Which on-disk generation governs path construction for every channel
/// of a run: two independent probes over the discovered channel ids,
/// decided once and never re-evaluated per channel.
#[derive(Clone, Copy, Debug, PartialEq, Eq, Structural)]
pub struct Layout {
    /// Channel directories carry no letter prefix: some channel has its
    /// metadata file at the unprefixed directory name (the oldest
    /// generations).
    pub legacy_names: bool,
    /// Message files are tabular: no channel has a prefixed-directory
    /// message file with the newer extension.
    pub csv_messages: bool,
}

/// A community grouping a channel may belong to.
#[derive(Debug)]
pub struct Guild {
    pub name: String,
}

/// Channel metadata as decoded from a channel record file.
#[derive(Debug)]
pub struct Channel {
    pub id: String,
    pub recipients: Option<Vec<String>>,
    pub guild: Option<Guild>,
}

/// A raw message record, as decoded from a JSON or CSV message file.
#[derive(Debug)]
pub struct Message {
    pub id: u64,
    pub timestamp: String,
    pub contents: String,
    pub attachments: Option<String>,
}

/// A retained message: produced only for messages with non-empty content.
#[derive(Debug)]
pub struct ParsedMessage {
    pub id: u64,
    pub timestamp: String,
    /// Byte length of the original content.
    pub length: usize,
    /// Whitespace-separated tokens of the content.
    pub words: Vec<String>,
}

/// A frequently used word together with its occurrence count.
#[derive(Debug)]
pub struct FavoriteWord {
    pub word: String,
    pub count: usize,
}

/// One of the most active community channels.
#[derive(Debug)]
pub struct TopChannel {
    pub name: String,
    pub message_count: usize,
    pub guild_name: Option<String>,
}

/// One of the most active direct-message threads.
#[derive(Debug)]
pub struct TopDM {
    pub id: String,
    pub dm_user_id: String,
    pub message_count: usize,
    pub user_data: Option<UserData>,
}

/// A payment record; `amount` is in minor currency units.
#[derive(Debug)]
pub struct Payment {
    pub amount: u64,
    pub currency: String,
    pub status: i64,
    pub created_at: String,
    pub description: String,
}

/// The account owning the export.
#[derive(Debug)]
pub struct User {
    pub id: String,
    pub username: String,
    pub discriminator: u16,
    pub avatar: Option<Vec<u8>>,
    pub default_avatar_url: Option<String>,
    pub payments: Vec<Payment>,
}

/// What the identity-resolution collaborator reports for a user id.
#[derive(Debug)]
pub struct UserData {
    pub username: String,
    pub discriminator: u16,
    pub avatar: Option<String>,
}

/// Per-currency totals (in minor units) and the rendered payment history.
#[derive(Debug)]
pub struct PaymentInfo {
    pub total: Vec<(String, u64)>,
    pub list: String,
}

/// The immutable result snapshot of one extraction run.
#[derive(Debug)]
pub struct ExtractedData {
    pub user: Option<User>,
    pub top_dms: Vec<TopDM>,
    pub top_channels: Vec<TopChannel>,
    pub guild_count: usize,
    pub dm_channel_count: usize,
    pub channel_count: usize,
    pub message_count: usize,
    pub character_count: usize,
    pub hours_values: Vec<usize>,
    pub favorite_words: Vec<FavoriteWord>,
    pub payments: PaymentInfo,
    pub open_count: Option<usize>,
    pub average_open_count_per_day: Option<usize>,
    pub notification_count: Option<usize>,
    pub join_voice_channel_count: Option<usize>,
    pub join_call_count: Option<usize>,
    pub add_reaction_count: Option<usize>,
    pub message_edited_count: Option<usize>,
    pub sent_message_count: Option<usize>,
    pub average_message_count_per_day: Option<usize>,
    pub slash_command_used_count: Option<usize>,
}

impl ExtractedData {
    /// All counters zero, the histogram all-zero with its 24 buckets,
    /// every optional feature unpopulated.
    pub open spec fn is_initial(self) -> bool {
        &&& self.user is None
        &&& self.top_dms@ == Seq::<TopDM>::empty()
        &&& self.top_channels@ == Seq::<TopChannel>::empty()
        &&& self.guild_count == 0
        &&& self.dm_channel_count == 0
        &&& self.channel_count == 0
        &&& self.message_count == 0
        &&& self.character_count == 0
        &&& self.hours_values@ == Seq::new(24, |i: int| 0usize)
        &&& self.favorite_words@ == Seq::<FavoriteWord>::empty()
        &&& self.payments.total@ == Seq::<(String, u64)>::empty()
        &&& self.payments.list@ == Seq::<char>::empty()
        &&& self.open_count is None
        &&& self.average_open_count_per_day is None
        &&& self.notification_count is None
        &&& self.join_voice_channel_count is None
        &&& self.join_call_count is None
        &&& self.add_reaction_count is None
        &&& self.message_edited_count is None
        &&& self.sent_message_count is None
        &&& self.average_message_count_per_day is None
        &&& self.slash_command_used_count is None
    }
}

impl Default for ExtractedData {
    fn default() -> (d: ExtractedData)
        ensures
            d.is_initial(),
    {
        let mut hours: Vec<usize> = Vec::new();
        while hours.len() < 24
            invariant
                hours@.len() <= 24,
                forall|i: int| 0 <= i < hours@.len() ==> hours@[i] == 0usize,
            decreases 24 - hours@.len(),
        {
            hours.push(0);
        }
        proof {
            assert(hours@ =~= Seq::new(24, |i: int| 0usize));
        }
        ExtractedData {
            user: None,
            top_dms: Vec::new(),
            top_channels: Vec::new(),
            guild_count: 0,
            dm_channel_count: 0,
            channel_count: 0,
            message_count: 0,
            character_count: 0,
            hours_values: hours,
            favorite_words: Vec::new(),
            payments: PaymentInfo { total: Vec::new(), list: String::new() },
            open_count: None,
            average_open_count_per_day: None,
            notification_count: None,
            join_voice_channel_count: None,
            join_call_count: None,
            add_reaction_count: None,
            message_edited_count: None,
            sent_message_count: None,
            average_message_count_per_day: None,
            slash_command_used_count: None,
        }
    }
}

/// A required structural anchor of the archive could not be found;
/// the run aborts with exactly one of these.
#[derive(Clone, Copy, Debug, PartialEq, Eq, Structural)]
pub enum StructuralError {
    MissingMessageRoot,
    MissingServerRoot,
    MissingUserRoot,
}

impl StructuralError {
    /// Human-readable text of the failure.
    pub fn message(&self) -> (r: String)
        ensures
            *self is MissingMessageRoot ==> r@ == "Could not find Messages folder structure"@,
            *self is MissingServerRoot ==> r@ == "Could not find Servers folder structure"@,
            *self is MissingUserRoot ==> r@ == "Could not find User folder structure"@,
    {
        match self {
            StructuralError::MissingMessageRoot => "Could not find Messages folder structure".to_owned(),
            StructuralError::MissingServerRoot => "Could not find Servers folder structure".to_owned(),
            StructuralError::MissingUserRoot => "Could not find User folder structure".to_owned(),
        }
    }
}

/// A single record file failed to decode. Swallowed at that granularity:
/// the item contributes nothing and the run continues.
#[derive(Debug)]
pub struct RecordError {
    pub message: String,
}

/// Outbound progress events of a running extraction. The pipeline stays
/// agnostic to how (or whether) the messages are displayed.
pub trait ProgressSink {
    fn emit(&mut self, message: String);
}

} // verus!
