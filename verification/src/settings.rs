//! Application settings, as plain values.
//!
//! Reading and writing the settings file, and discovering the home
//! directory, happen outside the crate; these functions hold the rules
//! that decide what the settings mean.

use crate::text::{contains_sub, find_sub, string_chars};
use vstd::prelude::*;

verus! {

/// The application's configuration.
#[derive(Debug, Clone)]
pub struct Settings {
    /// Directory holding one file per day of log entries.
    pub log_storage_dir: String,
    /// Directory receiving generated summary artifacts.
    pub log_output_dir: String,
    /// Git author whose commits may be harvested into entries.
    pub git_author: String,
    /// Whether the main window opens on startup.
    pub auto_open_window: bool,
    /// The quick-entry shortcut, empty for none.
    pub shortcut: String,
    /// Whether the shortcut is active.
    pub enable_shortcut: bool,
    /// Whether summaries use the local model server.
    pub use_local_ollama: bool,
    /// Address of the local model server.
    pub ollama_address: String,
    /// Model name on the local server.
    pub ollama_model: String,
    /// Credential for the remote API.
    pub llm_api_key: String,
    /// Endpoint of the remote API.
    pub llm_api_url: String,
}

/// The host whose endpoints follow the alternative remote protocol.
pub open spec fn dashscope_host() -> Seq<char> {
    "dashscope.aliyuncs.com"@
}

/// Which backend protocol a configuration selects: 0 for the local
/// model server, 2 for the alternative remote protocol, 1 otherwise.
pub open spec fn api_type_spec(s: &Settings) -> int {
    if s.use_local_ollama {
        0
    } else if contains_sub(s.llm_api_url@, dashscope_host()) {
        2
    } else {
        1
    }
}

impl Settings {
    /// Which backend protocol this configuration selects.
    pub fn get_summary_api_type(&self) -> (r: u8)
        ensures
            r as int == api_type_spec(self),
    {
        if self.use_local_ollama {
            0
        } else {
            let url = string_chars(self.llm_api_url.as_str());
            let host = string_chars("dashscope.aliyuncs.com");
            if find_sub(&url, &host) {
                2
            } else {
                1
            }
        }
    }

    /// The credential the selected protocol needs: none for the local
    /// server, the configured key otherwise.
    pub fn get_summary_api_key(&self, api_type: u8) -> (r: String)
        ensures
            api_type == 0 ==> r@ == Seq::<char>::empty(),
            api_type != 0 ==> r@ == self.llm_api_key@,
    {
        if api_type == 0 {
            String::new()
        } else {
            self.llm_api_key.clone()
        }
    }

    /// The endpoint the selected protocol calls: the local server's
    /// generate endpoint, or the configured remote URL.
    pub fn get_summary_api_url(&self, api_type: u8) -> (r: String)
        ensures
            api_type == 0 ==> r@ == self.ollama_address@ + "/api/generate"@,
            api_type != 0 ==> r@ == self.llm_api_url@,
    {
        if api_type == 0 {
            self.ollama_address.clone().concat("/api/generate")
        } else {
            self.llm_api_url.clone()
        }
    }

    /// The default configuration under the given home directory, with
    /// the given Git author.
    pub fn with_home(home: &str, git_author: String) -> (r: Settings)
        ensures
            r.log_storage_dir@ == home@ + "/work_records"@,
            r.log_output_dir@ == home@ + "/work_records/summaries"@,
            r.git_author@ == git_author@,
            !r.auto_open_window,
            r.shortcut@ == "Alt+Shift+L"@,
            r.enable_shortcut,
            r.use_local_ollama,
            r.ollama_address@ == "http://localhost:11434"@,
            r.ollama_model@ == "llama3"@,
            r.llm_api_key@ == Seq::<char>::empty(),
            r.llm_api_url@ == Seq::<char>::empty(),
    {
        Settings {
            log_storage_dir: String::from_str(home).concat("/work_records"),
            log_output_dir: String::from_str(home).concat("/work_records/summaries"),
            git_author,
            auto_open_window: false,
            shortcut: String::from_str("Alt+Shift+L"),
            enable_shortcut: true,
            use_local_ollama: true,
            ollama_address: String::from_str("http://localhost:11434"),
            ollama_model: String::from_str("llama3"),
            llm_api_key: String::new(),
            llm_api_url: String::new(),
        }
    }

    /// Repairs a configuration: a storage directory still at the home
    /// default is redirected to the fixed scratch location, and any
    /// directory the user chose is kept.
    pub fn repaired(self, home: &str) -> (r: Settings)
        ensures
            self.log_storage_dir@ == home@ + "/work_records"@ ==> r.log_storage_dir@
                == "/tmp/work_logs"@ && r.log_output_dir@ == "/tmp/work_logs/summaries"@,
            self.log_storage_dir@ != home@ + "/work_records"@ ==> r == self,
    {
        let home_default = String::from_str(home).concat("/work_records");
        if self.log_storage_dir == home_default {
            Settings {
                log_storage_dir: String::from_str("/tmp/work_logs"),
                log_output_dir: String::from_str("/tmp/work_logs/summaries"),
                ..self
            }
        } else {
            self
        }
    }
}

} // verus!
