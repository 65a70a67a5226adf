//! The built-in agent status record.
use vstd::prelude::*;

verus! {

/// Status of one coding agent. `cpu_percent_bits` holds the IEEE-754
/// single-precision bit pattern of the CPU load in percent.
#[derive(Debug)]
pub struct AgentState {
    pub agent_id: String,
    pub model: String,
    pub status: String,
    pub task: String,
    pub progress: u8,
    pub tokens: u64,
    pub memory_mb: u64,
    pub cpu_percent_bits: u32,
    pub files_processed: u64,
    pub current_file: String,
}

/// The content of an [`AgentState`].
pub struct AgentStateView {
    pub agent_id: Seq<char>,
    pub model: Seq<char>,
    pub status: Seq<char>,
    pub task: Seq<char>,
    pub progress: u8,
    pub tokens: u64,
    pub memory_mb: u64,
    pub cpu_percent_bits: u32,
    pub files_processed: u64,
    pub current_file: Seq<char>,
}

impl View for AgentState {
    type V = AgentStateView;

    open spec fn view(&self) -> AgentStateView {
        AgentStateView {
            agent_id: self.agent_id@,
            model: self.model@,
            status: self.status@,
            task: self.task@,
            progress: self.progress,
            tokens: self.tokens,
            memory_mb: self.memory_mb,
            cpu_percent_bits: self.cpu_percent_bits,
            files_processed: self.files_processed,
            current_file: self.current_file@,
        }
    }
}

/// Bit pattern of the `f32` value 34.2.
pub const DEMO_CPU_PERCENT_BITS: u32 = 0x4208cccd;

/// The content of the sample agent.
pub open spec fn demo_view() -> AgentStateView {
    AgentStateView {
        agent_id: "agent-17"@,
        model: "qwen3-coder"@,
        status: "running"@,
        task: "analyze repository"@,
        progress: 42,
        tokens: 18_492,
        memory_mb: 4_812,
        cpu_percent_bits: DEMO_CPU_PERCENT_BITS,
        files_processed: 173,
        current_file: "src/engine/parser.rs"@,
    }
}

impl AgentState {
    /// A sample agent, halfway through analysing a repository.
    pub fn demo() -> (s: Self)
        ensures
            s.progress == 42,
            s.tokens == 18_492,
            s.memory_mb == 4_812,
            s.cpu_percent_bits == DEMO_CPU_PERCENT_BITS,
            s.files_processed == 173,
            s.agent_id@ == "agent-17"@,
            s.model@ == "qwen3-coder"@,
            s.status@ == "running"@,
            s.task@ == "analyze repository"@,
            s.current_file@ == "src/engine/parser.rs"@,
            s@ == demo_view(),
    {
        AgentState {
            agent_id: "agent-17".to_owned(),
            model: "qwen3-coder".to_owned(),
            status: "running".to_owned(),
            task: "analyze repository".to_owned(),
            progress: 42,
            tokens: 18_492,
            memory_mb: 4_812,
            cpu_percent_bits: DEMO_CPU_PERCENT_BITS,
            files_processed: 173,
            current_file: "src/engine/parser.rs".to_owned(),
        }
    }

    /// Whether two states hold the same values, field by field (the CPU load
    /// compared bit for bit).
    pub fn same_as(&self, other: &AgentState) -> (b: bool)
        ensures
            b == (self@ == other@),
    {
        let b = self.agent_id == other.agent_id && self.model == other.model && self.status
            == other.status && self.task == other.task && self.progress == other.progress
            && self.tokens == other.tokens && self.memory_mb == other.memory_mb
            && self.cpu_percent_bits == other.cpu_percent_bits && self.files_processed
            == other.files_processed && self.current_file == other.current_file;
        proof {
            if !b {
                assert(self@ != other@) by {
                    if self@ == other@ {
                        assert(self@.agent_id == other@.agent_id);
                    }
                }
            }
            if b {
                assert(self@ =~= other@) by {}
            }
        }
        b
    }
}

impl Clone for AgentState {
    fn clone(&self) -> (c: Self)
        ensures
            c@ == self@,
    {
        AgentState {
            agent_id: self.agent_id.clone(),
            model: self.model.clone(),
            status: self.status.clone(),
            task: self.task.clone(),
            progress: self.progress,
            tokens: self.tokens,
            memory_mb: self.memory_mb,
            cpu_percent_bits: self.cpu_percent_bits,
            files_processed: self.files_processed,
            current_file: self.current_file.clone(),
        }
    }
}

} // verus!
