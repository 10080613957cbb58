use vstd::prelude::*;

verus! {

/// What the user has set.
#[derive(Debug, Clone)]
pub struct Settings {
    pub is_dev_mode: bool,
    pub interval: String,
    pub auto_start: bool,
    pub api_choice: String,
    pub api_key_claude: String,
    pub api_key_open_ai: String,
    pub api_key_gemini: String,
    pub local_model_url: String,
    pub vectorization_enabled: bool,
    pub rag_top_k: i32,
}

impl Settings {
    /// Chunks are embedded and searched only where vectorization is
    /// switched on and a key for the embedding provider is set.
    pub open spec fn allows_retrieval(&self) -> bool {
        self.vectorization_enabled && self.api_key_open_ai@.len() > 0
    }

    /// Whether chunks are to be embedded and searched.
    pub fn retrieval_enabled(&self) -> (r: bool)
        ensures
            r == self.allows_retrieval(),
    {
        self.vectorization_enabled && !self.api_key_open_ai.as_str().is_empty()
    }

    /// How many chunks a search is to return: the number that is set,
    /// where that is at least 1.
    pub fn top_k(&self) -> (r: Option<usize>)
        ensures
            match r {
                Some(k) => self.rag_top_k >= 1 && k == self.rag_top_k,
                None => self.rag_top_k < 1,
            },
    {
        if self.rag_top_k >= 1 {
            Some(self.rag_top_k as usize)
        } else {
            None
        }
    }
}

} // verus!
