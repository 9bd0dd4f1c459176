//! The data types the tool is configured and reports with: configuration
//! sections with their documented defaults, the account list entries, and
//! the per-account check results.

use vstd::prelude::*;
use vstd::string::StringExecFns;

verus! {

/// Concurrency, retry and daily-cycle settings.
#[derive(Clone, Copy, PartialEq, Eq, Structural, Debug)]
pub struct PerformanceConfig {
    pub max_workers: usize,
    pub query_interval: u64,
    pub retry_times: u32,
    pub retry_delay: u64,
    pub daily_rollover_hour: u32,
}

impl Default for PerformanceConfig {
    /// The documented defaults: nine workers, one-minute interval, two
    /// attempts three seconds apart, cycle rollover at eight o'clock.
    fn default() -> (r: Self)
        ensures
            r == (PerformanceConfig {
                max_workers: 9,
                query_interval: 60,
                retry_times: 2,
                retry_delay: 3,
                daily_rollover_hour: 8,
            }),
    {
        PerformanceConfig {
            max_workers: 9,
            query_interval: 60,
            retry_times: 2,
            retry_delay: 3,
            daily_rollover_hour: 8,
        }
    }
}

/// Fast-probe endpoint settings.
#[derive(Clone, Debug)]
pub struct ApiConfig {
    pub base_url: String,
    pub timeout: u64,
    pub fallback_to_web: bool,
}

impl Default for ApiConfig {
    fn default() -> (r: Self)
        ensures
            r.base_url@ == "https://anyrouter.top"@,
            r.timeout == 8,
            r.fallback_to_web,
    {
        ApiConfig {
            base_url: String::from_str("https://anyrouter.top"),
            timeout: 8,
            fallback_to_web: true,
        }
    }
}

/// Log level and log file name.
#[derive(Clone, Debug)]
pub struct LoggingConfig {
    pub level: String,
    pub file: String,
}

impl Default for LoggingConfig {
    fn default() -> (r: Self)
        ensures
            r.level@ == "INFO"@,
            r.file@ == "anyrouter_monitor.log"@,
    {
        LoggingConfig {
            level: String::from_str("INFO"),
            file: String::from_str("anyrouter_monitor.log"),
        }
    }
}

/// Options handed to the browser-driven strategy.
#[derive(Clone, Debug)]
pub struct BrowserConfig {
    pub headless: bool,
    pub timeout: u64,
    pub page_load_timeout: u64,
    pub implicitly_wait: u64,
    pub window_size: String,
    pub user_agent: Option<String>,
    pub disable_images: bool,
    pub disable_javascript: bool,
}

impl Default for BrowserConfig {
    fn default() -> (r: Self)
        ensures
            r.headless,
            r.timeout == 20,
            r.page_load_timeout == 30,
            r.implicitly_wait == 2,
            r.window_size@ == "1920,1080"@,
            r.user_agent is None,
            r.disable_images,
            !r.disable_javascript,
    {
        BrowserConfig {
            headless: true,
            timeout: 20,
            page_load_timeout: 30,
            implicitly_wait: 2,
            window_size: String::from_str("1920,1080"),
            user_agent: None,
            disable_images: true,
            disable_javascript: false,
        }
    }
}

/// Slow-strategy settings: the optional hook command and the worker pool
/// bounds.
#[derive(Clone, Debug)]
pub struct WebCheckConfig {
    pub enabled: bool,
    pub command: String,
    pub args: Vec<String>,
    pub timeout_seconds: u64,
    pub chromedriver_path: String,
    pub pool_size: usize,
    pub max_pool_size: usize,
}

impl Default for WebCheckConfig {
    fn default() -> (r: Self)
        ensures
            !r.enabled,
            r.command@ == Seq::<char>::empty(),
            r.args@ == Seq::<String>::empty(),
            r.timeout_seconds == 90,
            r.chromedriver_path@ == Seq::<char>::empty(),
            r.pool_size == 4,
            r.max_pool_size == 9,
    {
        WebCheckConfig {
            enabled: false,
            command: String::new(),
            args: Vec::new(),
            timeout_seconds: 90,
            chromedriver_path: String::new(),
            pool_size: 4,
            max_pool_size: 9,
        }
    }
}

/// The whole configuration, one section per concern.
#[derive(Clone, Debug)]
pub struct AppConfig {
    pub browser: BrowserConfig,
    pub performance: PerformanceConfig,
    pub api: ApiConfig,
    pub logging: LoggingConfig,
    pub web_check: WebCheckConfig,
}

impl Default for AppConfig {
    fn default() -> (r: Self)
        ensures
            r.performance == (PerformanceConfig {
                max_workers: 9,
                query_interval: 60,
                retry_times: 2,
                retry_delay: 3,
                daily_rollover_hour: 8,
            }),
    {
        AppConfig {
            browser: BrowserConfig::default(),
            performance: PerformanceConfig::default(),
            api: ApiConfig::default(),
            logging: LoggingConfig::default(),
            web_check: WebCheckConfig::default(),
        }
    }
}

/// One monitored account: its identifier, its credential, and the
/// optional fast-path token.
#[derive(Debug)]
pub struct Account {
    pub username: String,
    pub password: String,
    pub api_key: String,
}

impl Clone for Account {
    fn clone(&self) -> (r: Self)
        ensures
            r == *self,
    {
        Account {
            username: self.username.clone(),
            password: self.password.clone(),
            api_key: self.api_key.clone(),
        }
    }
}

/// The cached last-known balance of one account.
#[derive(Debug)]
pub struct BalanceCacheRecord {
    pub balance: String,
    pub updated_at: String,
    pub apikey_sync_success: Option<bool>,
    pub apikey_sync_message: String,
}

impl BalanceCacheRecord {
    /// An empty record, the base an upsert starts from.
    pub fn empty() -> (r: Self)
        ensures
            r.balance@ == Seq::<char>::empty(),
            r.updated_at@ == Seq::<char>::empty(),
            r.apikey_sync_success is None,
            r.apikey_sync_message@ == Seq::<char>::empty(),
    {
        BalanceCacheRecord {
            balance: String::new(),
            updated_at: String::new(),
            apikey_sync_success: None,
            apikey_sync_message: String::new(),
        }
    }
}

impl Clone for BalanceCacheRecord {
    fn clone(&self) -> (r: Self)
        ensures
            r == *self,
    {
        BalanceCacheRecord {
            balance: self.balance.clone(),
            updated_at: self.updated_at.clone(),
            apikey_sync_success: match self.apikey_sync_success {
                Some(b) => Some(b),
                None => None,
            },
            apikey_sync_message: self.apikey_sync_message.clone(),
        }
    }
}

/// The outcome reported for one account after one batch run.
#[derive(Debug)]
pub struct CheckResult {
    pub username: String,
    pub success: bool,
    pub balance_text: String,
    pub source: String,
    pub message: String,
}

impl Clone for CheckResult {
    fn clone(&self) -> (r: Self)
        ensures
            r == *self,
    {
        CheckResult {
            username: self.username.clone(),
            success: self.success,
            balance_text: self.balance_text.clone(),
            source: self.source.clone(),
            message: self.message.clone(),
        }
    }
}

/// A progress line sent to the observing shell while a batch runs.
#[derive(Debug)]
pub struct ProgressEvent {
    pub level: String,
    pub username: String,
    pub message: String,
}

impl Clone for ProgressEvent {
    fn clone(&self) -> (r: Self)
        ensures
            r == *self,
    {
        ProgressEvent {
            level: self.level.clone(),
            username: self.username.clone(),
            message: self.message.clone(),
        }
    }
}

} // verus!
