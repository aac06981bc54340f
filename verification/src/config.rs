//! The configuration of the service.

use crate::text::{chars_of, decimal};
use parse_size::{parse_size, Error};
use vstd::prelude::*;

verus! {

/// The configuration of the service.
#[derive(Debug)]
pub struct MemsterConfig {
    // only used to parse the actual size string
    pub _pre_allocated: String,
    pub port: u16,
    pub host: String,
    /// The time that a key lives, in seconds.
    pub ttl: u64,
    pub pre_allocted_bytes: usize,
    pub json_logging: bool,
    pub num_shards: Option<usize>,
}

/// Why a text is not a size.
#[derive(Clone, Copy, Debug, PartialEq, Eq, Structural)]
pub enum SizeError {
    /// The text contains no numbers.
    Empty,
    /// The text contains an invalid character.
    InvalidDigit,
    /// The number is too large for a `u64`.
    PosOverflow,
}

/// Why settings are not a configuration.
#[derive(Clone, Copy, Debug, PartialEq, Eq, Structural)]
pub enum ConfigError {
    /// The size to allocate up front is not a size.
    PreAllocated(SizeError),
    /// The size to allocate up front is larger than the memory can be.
    TooLarge,
}

/// What a text says as a number of bytes: the result of `parse_size::parse_size`.
pub uninterp spec fn parsed_size(text: Seq<char>) -> Result<u64, SizeError>;

/// Whether a character is a decimal digit.
pub open spec fn is_digit(c: char) -> bool {
    '0' <= c <= '9'
}

/// The number that the digits of a text come to; its other characters do not count.
pub open spec fn digits_value(text: Seq<char>) -> nat
    decreases text.len(),
{
    if text.len() == 0 {
        0
    } else if is_digit(text.last()) {
        digits_value(text.drop_last()) * 10 + (text.last() as nat - 48) as nat
    } else {
        digits_value(text.drop_last())
    }
}

/// Whether a text is the beginning of a number, without an exponent: digits, underscores and
/// spaces, and at most one point, which follows a digit.
pub open spec fn begins_number(text: Seq<char>) -> bool {
    &&& forall|i: int|
        0 <= i < text.len() ==> {
            ||| is_digit(#[trigger] text[i])
            ||| text[i] == '_'
            ||| text[i] == ' '
            ||| text[i] == '.'
        }
    &&& forall|i: int|
        0 <= i < text.len() && #[trigger] text[i] == '.' ==> {
            &&& exists|j: int| 0 <= j < i && is_digit(#[trigger] text[j])
            &&& forall|j: int| 0 <= j < i ==> #[trigger] text[j] != '.'
        }
}

/// Whether the digits before index `i` come to the largest `u64`, and the one at index `i` rounds
/// it up.
pub open spec fn rounds_up_maximum(text: Seq<char>, i: int) -> bool {
    &&& '5' <= text[i] <= '9'
    &&& begins_number(text.take(i))
    &&& digits_value(text.take(i)) == u64::MAX
}

/// Whether `parse_size::parse_size` reads a text without an overflow of the numbers that it counts
/// with.
pub open spec fn is_readable_size(text: Seq<char>) -> bool {
    &&& text.len() <= i32::MAX
    &&& forall|i: int| 0 <= i < text.len() ==> !(#[trigger] rounds_up_maximum(text, i))
}

/// Reads a number of bytes with `parse_size::parse_size`, whose result is a function of the text
/// alone. A text on which its counters overflow is left out.
#[verifier::external_body]
fn read_size(text: &str) -> (size: Result<u64, SizeError>)
    requires
        is_readable_size(text@),
    ensures
        size == parsed_size(text@),
{
    match parse_size(text) {
        Ok(size) => Ok(size),
        Err(Error::Empty) => Err(SizeError::Empty),
        Err(Error::InvalidDigit) => Err(SizeError::InvalidDigit),
        Err(_) => Err(SizeError::PosOverflow),
    }
}

/// No number goes on past a character that cannot stand in it.
proof fn lemma_stops_number(text: Seq<char>, i: int)
    requires
        0 <= i < text.len(),
        !begins_number(text.take(i + 1)),
        !is_digit(text[i]),
        forall|j: int| 0 <= j < i ==> !(#[trigger] rounds_up_maximum(text, j)),
    ensures
        forall|j: int| 0 <= j < text.len() ==> !(#[trigger] rounds_up_maximum(text, j)),
{
    assert forall|j: int| 0 <= j < text.len() implies !(#[trigger] rounds_up_maximum(text, j)) by {
        if j > i && begins_number(text.take(j)) {
            lemma_beginning_of_beginning(text.take(j), i + 1);
            assert(text.take(j).take(i + 1) =~= text.take(i + 1));
        }
    }
}

/// What a beginning of a number begins with is one too.
proof fn lemma_beginning_of_beginning(text: Seq<char>, n: int)
    requires
        begins_number(text),
        0 <= n <= text.len(),
    ensures
        begins_number(text.take(n)),
{
    let start = text.take(n);
    assert forall|i: int| 0 <= i < start.len() implies {
        ||| is_digit(#[trigger] start[i])
        ||| start[i] == '_'
        ||| start[i] == ' '
        ||| start[i] == '.'
    } by {
        assert(start[i] == text[i]);
    }
    assert forall|i: int| 0 <= i < start.len() && #[trigger] start[i] == '.' implies {
        &&& exists|j: int| 0 <= j < i && is_digit(#[trigger] start[j])
        &&& forall|j: int| 0 <= j < i ==> #[trigger] start[j] != '.'
    } by {
        assert(text[i] == '.');
        let j = choose|j: int| 0 <= j < i && is_digit(#[trigger] text[j]);
        assert(is_digit(start[j]));
        assert(forall|j: int| 0 <= j < i ==> #[trigger] start[j] == text[j]);
    }
}

/// Whether a text can be read as a size.
pub fn readable_size(text: &str) -> (readable: bool)
    ensures
        readable == is_readable_size(text@),
{
    let chars = chars_of(text);
    if chars.len() > i32::MAX as usize {
        return false;
    }
    let mut value: Option<u64> = Some(0);
    let mut has_digit: bool = false;
    let mut has_point: bool = false;
    let mut i: usize = 0;
    while i < chars.len()
        invariant
            chars@ == text@,
            i <= chars@.len() <= i32::MAX,
            begins_number(text@.take(i as int)),
            match value {
                Some(value) => value == digits_value(text@.take(i as int)),
                None => digits_value(text@.take(i as int)) > u64::MAX,
            },
            has_digit <==> exists|j: int| 0 <= j < i && is_digit(#[trigger] text@[j]),
            has_point <==> exists|j: int| 0 <= j < i && #[trigger] text@[j] == '.',
            forall|j: int| 0 <= j < i ==> !(#[trigger] rounds_up_maximum(text@, j)),
        decreases chars@.len() - i,
    {
        let c = chars[i];
        let ghost before = text@.take(i as int);
        let ghost after = text@.take(i + 1);
        assert(after.drop_last() =~= before);
        assert(after.last() == c);
        if '0' <= c && c <= '9' {
            if c >= '5' && value == Some(u64::MAX) {
                assert(rounds_up_maximum(text@, i as int));
                return false;
            }
            value = match value {
                Some(value) => {
                    let digit: u64 = (c as u32 - 48) as u64;
                    match value.checked_mul(10) {
                        Some(shifted) => shifted.checked_add(digit),
                        None => None,
                    }
                },
                None => None,
            };
            has_digit = true;
        } else if c == '.' && has_digit && !has_point {
            has_point = true;
        } else if c != '_' && c != ' ' {
            proof {
                if begins_number(after) {
                    assert(after[i as int] == c);
                    let j = choose|j: int| 0 <= j < i && is_digit(#[trigger] after[j]);
                    assert(is_digit(text@[j]));
                    assert(forall|j: int| 0 <= j < i ==> #[trigger] text@[j] == after[j]);
                }
                lemma_stops_number(text@, i as int);
            }
            return true;
        }
        proof {
            assert forall|k: int| 0 <= k < after.len() && #[trigger] after[k] == '.' implies {
                &&& exists|j: int| 0 <= j < k && is_digit(#[trigger] after[j])
                &&& forall|j: int| 0 <= j < k ==> #[trigger] after[j] != '.'
            } by {
                if k < i {
                    assert(before[k] == '.');
                    let j = choose|j: int| 0 <= j < k && is_digit(#[trigger] before[j]);
                    assert(is_digit(after[j]));
                    assert(forall|j: int| 0 <= j < k ==> #[trigger] after[j] == before[j]);
                } else {
                    let j = choose|j: int| 0 <= j < i && is_digit(#[trigger] text@[j]);
                    assert(is_digit(after[j]));
                }
            }
            assert(begins_number(after));
        }
        i += 1;
    }
    true
}

impl SizeError {
    /// What the error says.
    pub open spec fn text(self) -> Seq<char> {
        match self {
            SizeError::Empty => "cannot parse integer from empty string"@,
            SizeError::InvalidDigit => "invalid digit found in string"@,
            SizeError::PosOverflow => "number too large to fit in target type"@,
        }
    }

    /// What the error says.
    pub fn message(&self) -> (message: String)
        ensures
            message@ == self.text(),
    {
        match self {
            SizeError::Empty => "cannot parse integer from empty string".to_owned(),
            SizeError::InvalidDigit => "invalid digit found in string".to_owned(),
            SizeError::PosOverflow => "number too large to fit in target type".to_owned(),
        }
    }
}

impl ConfigError {
    /// What the error says.
    pub open spec fn text(self) -> Seq<char> {
        match self {
            ConfigError::PreAllocated(error) => "Failed to parse pre_allocated field "@
                + error.text(),
            ConfigError::TooLarge => "out of range integral type conversion attempted"@,
        }
    }

    /// What the error says.
    pub fn message(&self) -> (message: String)
        ensures
            message@ == self.text(),
    {
        match self {
            ConfigError::PreAllocated(error) => {
                let mut message = "Failed to parse pre_allocated field ".to_owned();
                message.append(error.message().as_str());
                message
            },
            ConfigError::TooLarge => "out of range integral type conversion attempted".to_owned(),
        }
    }
}

impl Default for MemsterConfig {
    fn default() -> (config: MemsterConfig)
        ensures
            config.port == 8080,
            config._pre_allocated@ == "none"@,
            config.host@ == "0.0.0.0"@,
            config.pre_allocted_bytes == 0,
            config.ttl == 30 * 24 * 60 * 60,
            config.num_shards is None,
            config.json_logging,
    {
        MemsterConfig {
            port: 8080,
            _pre_allocated: "none".to_owned(),
            host: "0.0.0.0".to_owned(),
            pre_allocted_bytes: 0,
            ttl: 2_592_000,  // 30 days
            num_shards: None,
            json_logging: true,
        }
    }
}

impl MemsterConfig {
    /// Whether `loaded` is what becomes of a configuration as it is set, when its size to allocate
    /// up front is read as `size`.
    pub open spec fn is_loaded(
        self,
        size: Result<u64, SizeError>,
        loaded: Result<MemsterConfig, ConfigError>,
    ) -> bool {
        match size {
            Ok(bytes) => if bytes <= usize::MAX {
                loaded == Ok::<MemsterConfig, ConfigError>(
                    MemsterConfig { pre_allocted_bytes: bytes as usize, ..self },
                )
            } else {
                loaded == Err::<MemsterConfig, ConfigError>(ConfigError::TooLarge)
            },
            Err(error) => loaded == Err::<MemsterConfig, ConfigError>(
                ConfigError::PreAllocated(error),
            ),
        }
    }

    /// Sets the number of bytes to allocate up front, when the size is read as `size`.
    pub fn with_size(self, size: Result<u64, SizeError>) -> (loaded: Result<
        MemsterConfig,
        ConfigError,
    >)
        ensures
            self.is_loaded(size, loaded),
            loaded is Ok <==> size is Ok && size->Ok_0 <= usize::MAX,
            loaded is Ok ==> {
                &&& loaded->Ok_0._pre_allocated == self._pre_allocated
                &&& loaded->Ok_0.port == self.port
                &&& loaded->Ok_0.host == self.host
                &&& loaded->Ok_0.ttl == self.ttl
                &&& loaded->Ok_0.json_logging == self.json_logging
                &&& loaded->Ok_0.num_shards == self.num_shards
                &&& loaded->Ok_0.pre_allocted_bytes == size->Ok_0
            },
            size is Err ==> loaded is Err && loaded->Err_0 == ConfigError::PreAllocated(size->Err_0),
            size is Ok && size->Ok_0 > usize::MAX ==> loaded is Err && loaded->Err_0 == ConfigError::TooLarge,
    {
        match size {
            Ok(bytes) => {
                if bytes <= usize::MAX as u64 {
                    Ok(MemsterConfig { pre_allocted_bytes: bytes as usize, ..self })
                } else {
                    Err(ConfigError::TooLarge)
                }
            },
            Err(error) => Err(ConfigError::PreAllocated(error)),
        }
    }

    /// Loads the configuration as it is set: reads the size to allocate up front.
    pub fn load(config: MemsterConfig) -> (loaded: Result<MemsterConfig, ConfigError>)
        requires
            is_readable_size(config._pre_allocated@),
        ensures
            config.is_loaded(parsed_size(config._pre_allocated@), loaded),
            loaded is Ok <==> parsed_size(config._pre_allocated@) is Ok && parsed_size(config._pre_allocated@)->Ok_0 <= usize::MAX,
            loaded is Ok ==> {
                &&& loaded->Ok_0._pre_allocated == config._pre_allocated
                &&& loaded->Ok_0.port == config.port
                &&& loaded->Ok_0.host == config.host
                &&& loaded->Ok_0.ttl == config.ttl
                &&& loaded->Ok_0.json_logging == config.json_logging
                &&& loaded->Ok_0.num_shards == config.num_shards
                &&& loaded->Ok_0.pre_allocted_bytes == parsed_size(config._pre_allocated@)->Ok_0
            },
            parsed_size(config._pre_allocated@) is Err ==> loaded is Err && loaded->Err_0 == ConfigError::PreAllocated(parsed_size(config._pre_allocated@)->Err_0),
            parsed_size(config._pre_allocated@) is Ok && parsed_size(config._pre_allocated@)->Ok_0 > usize::MAX ==> loaded is Err && loaded->Err_0 == ConfigError::TooLarge,
    {
        let size = read_size(config._pre_allocated.as_str());
        config.with_size(size)
    }

    /// Loads the configuration as it is set, unless its size to allocate up front cannot be read.
    pub fn load_if_readable(config: MemsterConfig) -> (loaded: Option<
        Result<MemsterConfig, ConfigError>,
    >)
        ensures
            loaded is Some <==> is_readable_size(config._pre_allocated@),
            loaded is Some ==> config.is_loaded(parsed_size(config._pre_allocated@), loaded->0),
    {
        if readable_size(config._pre_allocated.as_str()) {
            Some(MemsterConfig::load(config))
        } else {
            None
        }
    }

    /// The address that the service listens on.
    pub fn address(&self) -> (address: String)
        ensures
            address@ == self.host@ + ":"@ + crate::text::decimal_digits(self.port as nat),
    {
        let mut address = self.host.clone();
        address.append(":");
        address.append(decimal(self.port as u64).as_str());
        address
    }
}

} // verus!
