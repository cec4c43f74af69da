//! The event processor: what to do for each lifecycle event, and how a write ends.

use vstd::prelude::*;
use crate::clock::epoch_millis_now;
use crate::decimal::{append_decimal, decimal_text, lemma_decimal_text_injective};
use crate::error::{SerializationError, StartupConfigurationError, StorageWriteError};
use crate::event::NextEvent;
use crate::record::{archived, CustomEvent, CustomEventView};

verus! {

/// One write to object storage.
#[derive(Debug, Clone, PartialEq, Eq)]
pub struct PutObject {
    /// The bucket to write to.
    pub bucket: String,
    /// The key under which the object is stored.
    pub key: String,
    /// The bytes of the object.
    pub body: Vec<u8>,
    /// The content type to declare.
    pub content_type: String,
}

/// The mathematical value of a `PutObject`.
pub ghost struct PutObjectView {
    pub bucket: Seq<char>,
    pub key: Seq<char>,
    pub body: Seq<u8>,
    pub content_type: Seq<char>,
}

impl View for PutObject {
    type V = PutObjectView;

    open spec fn view(&self) -> PutObjectView {
        PutObjectView {
            bucket: self.bucket@,
            key: self.key@,
            body: self.body@,
            content_type: self.content_type@,
        }
    }
}

/// What handling an event asks of the host loop.
#[derive(Debug, Clone, PartialEq, Eq)]
pub enum Step {
    /// Nothing is stored: the event is acknowledged at once.
    Done,
    /// This object is written once, and the outcome of the write is the outcome of the event.
    Put(PutObject),
}

impl Step {
    /// How many writes to storage the step asks for.
    pub open spec fn storage_writes(self) -> nat {
        match self {
            Step::Done => 0,
            Step::Put(_) => 1,
        }
    }
}

/// How many writes to storage the outcome of handling an event asks for.
pub open spec fn storage_writes(outcome: Result<Step, SerializationError>) -> nat {
    match outcome {
        Ok(step) => step.storage_writes(),
        Err(_) => 0,
    }
}

/// The key of an object uploaded for `function_name` at `millis` milliseconds since the epoch.
pub open spec fn storage_key(function_name: Seq<char>, millis: int) -> Seq<char> {
    function_name + "/"@ + decimal_text(millis) + ".json"@
}

/// The content type that every stored object declares.
pub open spec fn json_content_type() -> Seq<char> {
    "application/json"@
}

/// Archives invocation events of one function in one bucket.
#[derive(Debug, Clone, PartialEq, Eq)]
pub struct CustomEventProcessor {
    bucket_name: String,
    function_name: String,
}

impl CustomEventProcessor {
    /// The bucket that the processor writes to.
    pub closed spec fn bucket(&self) -> Seq<char> {
        self.bucket_name@
    }

    /// The function whose events the processor archives.
    pub closed spec fn function(&self) -> Seq<char> {
        self.function_name@
    }

    /// The write that archives `record` at `millis`.
    pub open spec fn archive_spec(&self, record: CustomEventView, millis: int) -> PutObjectView {
        PutObjectView {
            bucket: self.bucket(),
            key: storage_key(self.function(), millis),
            body: record.json(),
            content_type: json_content_type(),
        }
    }

    /// Whether `outcome` is what handling `event` at `millis` gives.
    pub open spec fn handles(
        &self,
        event: NextEvent,
        millis: int,
        outcome: Result<Step, SerializationError>,
    ) -> bool {
        match event {
            NextEvent::Shutdown(_) => outcome matches Ok(Step::Done),
            NextEvent::Invoke(e) => outcome matches Ok(Step::Put(object)) && object@
                == self.archive_spec(archived(e), millis),
        }
    }

    /// A processor that archives the events of `function_name` in `bucket_name`.
    pub fn new(bucket_name: String, function_name: String) -> (processor: Self)
        ensures
            processor.bucket() == bucket_name@,
            processor.function() == function_name@,
    {
        CustomEventProcessor { bucket_name, function_name }
    }

    /// The processor for the two settings as they were found at startup, the function name
    /// and the bucket name. Both are required: without one of them there is no processor, and
    /// so no event is ever handled. A missing function name is reported first.
    pub fn from_settings(function_name: Option<String>, bucket_name: Option<String>) -> (started:
        Result<Self, StartupConfigurationError>)
        ensures
            match (function_name, bucket_name) {
                (Some(function), Some(bucket)) => started matches Ok(processor)
                    && processor.function() == function@ && processor.bucket() == bucket@,
                (None, _) => started == Err::<Self, _>(
                    StartupConfigurationError::MissingFunctionName,
                ),
                (Some(_), None) => started == Err::<Self, _>(
                    StartupConfigurationError::MissingBucketName,
                ),
            },
    {
        match function_name {
            None => Err(StartupConfigurationError::MissingFunctionName),
            Some(function) => match bucket_name {
                None => Err(StartupConfigurationError::MissingBucketName),
                Some(bucket) => Ok(Self::new(bucket, function)),
            },
        }
    }

    /// The name of the bucket that the processor writes to.
    pub fn bucket_name(&self) -> (name: &str)
        ensures
            name@ == self.bucket(),
    {
        self.bucket_name.as_str()
    }

    /// The name of the function whose events the processor archives.
    pub fn function_name(&self) -> (name: &str)
        ensures
            name@ == self.function(),
    {
        self.function_name.as_str()
    }

    /// Whether the processor accepts the next event. It always does: it holds no queue and
    /// never asks the host to wait.
    pub fn poll_ready(&self) -> (ready: bool)
        ensures
            ready,
    {
        true
    }

    /// The key under which an upload at `millis` is stored.
    pub fn storage_key(&self, millis: i64) -> (key: String)
        ensures
            key@ == storage_key(self.function(), millis as int),
    {
        let mut key = self.function_name.clone();
        key.append("/");
        append_decimal(&mut key, millis);
        key.append(".json");
        key
    }

    /// The write that archives `record` at `millis`. Every record can be written: the
    /// outcome is never an error.
    pub fn archive_at(&self, record: &CustomEvent, millis: i64) -> (put: Result<
        PutObject,
        SerializationError,
    >)
        ensures
            put is Ok,
            put matches Ok(object) ==> object@ == self.archive_spec(record@, millis as int),
    {
        match record.to_json() {
            Ok(body) => Ok(
                PutObject {
                    bucket: self.bucket_name.clone(),
                    key: self.storage_key(millis),
                    body,
                    content_type: String::from_str("application/json"),
                },
            ),
            Err(e) => Err(e),
        }
    }

    /// Handles `event` as if the clock read `millis` milliseconds since the epoch.
    pub fn call_at(&self, event: NextEvent, millis: i64) -> (outcome: Result<
        Step,
        SerializationError,
    >)
        ensures
            self.handles(event, millis as int, outcome),
            outcome is Ok,
            event is Shutdown ==> storage_writes(outcome) == 0,
            event is Invoke ==> storage_writes(outcome) == 1,
    {
        match event {
            NextEvent::Shutdown(_) => Ok(Step::Done),
            NextEvent::Invoke(e) => {
                let record = CustomEvent::from(e);
                match self.archive_at(&record, millis) {
                    Ok(object) => Ok(Step::Put(object)),
                    Err(e) => Err(e),
                }
            },
        }
    }

    /// Handles `event` at the current time of the system clock. The clock is read for an
    /// invocation only: a shutdown is acknowledged without it.
    pub fn call(&self, event: NextEvent) -> (outcome: Result<Step, SerializationError>)
        ensures
            exists|millis: i64| self.handles(event, millis as int, outcome),
            outcome is Ok,
            event is Shutdown ==> storage_writes(outcome) == 0,
            event is Invoke ==> storage_writes(outcome) == 1,
    {
        match event {
            NextEvent::Shutdown(_) => {
                let outcome = Ok(Step::Done);
                assert(self.handles(event, 0i64 as int, outcome));
                outcome
            },
            NextEvent::Invoke(_) => {
                let millis = epoch_millis_now();
                self.call_at(event, millis)
            },
        }
    }
}

/// The outcome of an event whose write ended with `written`: the event succeeds when the
/// write did, and fails with the error of the storage service, unchanged, when it did not.
/// Nothing further is asked of the host loop either way: a failed write is not tried again.
pub fn finish<E>(written: Result<(), E>) -> (outcome: Result<(), StorageWriteError<E>>)
    ensures
        outcome == match written {
            Ok(_) => Ok::<(), StorageWriteError<E>>(()),
            Err(source) => Err(StorageWriteError { source }),
        },
{
    match written {
        Ok(_) => Ok(()),
        Err(source) => Err(StorageWriteError { source }),
    }
}

/// Two invocations that one processor archives in the same millisecond are stored under the
/// same key, whatever they hold: the later write replaces the earlier object.
pub proof fn lemma_same_millisecond_same_key(
    processor: CustomEventProcessor,
    first: CustomEventView,
    second: CustomEventView,
    millis: int,
)
    ensures
        processor.archive_spec(first, millis).key == processor.archive_spec(second, millis).key,
{
}

/// Uploads for one function in different milliseconds are stored under different keys: the
/// key tells the milliseconds apart, and nothing finer.
pub proof fn lemma_distinct_milliseconds_distinct_keys(
    function_name: Seq<char>,
    first_millis: int,
    second_millis: int,
)
    requires
        first_millis != second_millis,
    ensures
        storage_key(function_name, first_millis) != storage_key(function_name, second_millis),
{
    let first = decimal_text(first_millis);
    let second = decimal_text(second_millis);
    let first_key = storage_key(function_name, first_millis);
    let second_key = storage_key(function_name, second_millis);
    if first_key == second_key {
        let before = function_name.len() + "/"@.len();
        assert(first_key.len() == before + first.len() + ".json"@.len());
        assert(second_key.len() == before + second.len() + ".json"@.len());
        assert forall|i: int| 0 <= i < first.len() implies first[i] == second[i] by {
            assert(first_key[before + i] == first[i]);
            assert(second_key[before + i] == second[i]);
        }
        assert(first =~= second);
        lemma_decimal_text_injective(first_millis, second_millis);
    }
}

} // verus!
