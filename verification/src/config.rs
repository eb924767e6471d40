//! Plain configuration data: channel, provider, gateway and tool settings,
//! and the keyword routes for multi-model routing. Loading these from disk
//! or the environment is the outer shell's business; the library only holds
//! and interprets the values.

use vstd::prelude::*;

verus! {

/// One keyword route: messages holding any of the keywords go to `model`.
#[derive(Debug, Clone)]
pub struct ModelRoute {
    pub keywords: Vec<String>,
    pub model: String,
    pub description: String,
}

#[derive(Debug, Clone)]
pub struct TelegramConfig {
    pub enabled: bool,
    pub token: String,
    pub proxy: String,
    pub allow_from: Vec<String>,
}

#[derive(Debug, Clone)]
pub struct DiscordConfig {
    pub enabled: bool,
    pub token: String,
    pub allow_from: Vec<String>,
}

#[derive(Debug, Clone)]
pub struct SlackConfig {
    pub enabled: bool,
    pub bot_token: String,
    pub app_token: String,
    pub allow_from: Vec<String>,
}

#[derive(Debug, Clone)]
pub struct WhatsAppConfig {
    pub enabled: bool,
    pub bridge_url: String,
    pub allow_from: Vec<String>,
}

#[derive(Debug, Clone)]
pub struct FeishuConfig {
    pub enabled: bool,
    pub app_id: String,
    pub app_secret: String,
    pub encrypt_key: String,
    pub verification_token: String,
    pub allow_from: Vec<String>,
}

#[derive(Debug, Clone)]
pub struct DingTalkConfig {
    pub enabled: bool,
    pub client_id: String,
    pub client_secret: String,
    pub allow_from: Vec<String>,
}

#[derive(Debug, Clone)]
pub struct LineConfig {
    pub enabled: bool,
    pub channel_secret: String,
    pub channel_access_token: String,
    pub webhook_host: String,
    pub webhook_port: u16,
    pub webhook_path: String,
    pub allow_from: Vec<String>,
}

#[derive(Debug, Clone)]
pub struct OneBotConfig {
    pub enabled: bool,
    pub ws_url: String,
    pub access_token: String,
    pub reconnect_interval: u64,
    pub group_trigger_prefix: Vec<String>,
    pub allow_from: Vec<String>,
}

#[derive(Debug, Clone)]
pub struct MaixCamConfig {
    pub enabled: bool,
    pub host: String,
    pub port: u16,
    pub allow_from: Vec<String>,
}

#[derive(Debug, Clone)]
pub struct ChannelsConfig {
    pub telegram: TelegramConfig,
    pub discord: DiscordConfig,
    pub slack: SlackConfig,
    pub whatsapp: WhatsAppConfig,
    pub feishu: FeishuConfig,
    pub dingtalk: DingTalkConfig,
    pub line: LineConfig,
    pub onebot: OneBotConfig,
    pub maixcam: MaixCamConfig,
}

/// One provider's credentials.
#[derive(Debug, Clone)]
pub struct ProviderEntry {
    pub api_key: String,
    pub api_base: String,
}

/// A provider entry that may also carry a proxy.
#[derive(Debug, Clone)]
pub struct ProviderEntryWithProxy {
    pub api_key: String,
    pub api_base: String,
    pub proxy: String,
}

#[derive(Debug, Clone)]
pub struct GatewayConfig {
    pub host: String,
    pub port: u16,
}

#[derive(Debug, Clone)]
pub struct WebSearchConfig {
    pub api_key: String,
    pub max_results: usize,
}

#[derive(Debug, Clone)]
pub struct WebToolsConfig {
    pub search: WebSearchConfig,
}

#[derive(Debug, Clone)]
pub struct ToolsConfig {
    pub web: WebToolsConfig,
}

#[derive(Debug, Clone)]
pub struct HeartbeatConfig {
    pub enabled: bool,
    pub interval: u64,
}

#[derive(Debug, Clone)]
pub struct DevicesConfig {
    pub enabled: bool,
    pub monitor_usb: bool,
}

pub fn default_max_retries() -> (r: usize)
    ensures
        r == 3,
{
    3
}

pub fn default_retry_delay_ms() -> (r: u64)
    ensures
        r == 1000,
{
    1000
}

pub fn default_workspace() -> (r: String)
    ensures
        r@ == "~/.quectoclaw/workspace"@,
{
    crate::text::string_from_chars(&crate::text::chars_of("~/.quectoclaw/workspace"))
}

pub fn default_true() -> (r: bool)
    ensures
        r,
{
    true
}

pub fn default_model() -> (r: String)
    ensures
        r@ == "gpt-4o-mini"@,
{
    crate::text::string_from_chars(&crate::text::chars_of("gpt-4o-mini"))
}

pub fn default_max_tokens() -> (r: usize)
    ensures
        r == 8192,
{
    8192
}

pub fn default_max_tool_iterations() -> (r: usize)
    ensures
        r == 20,
{
    20
}

pub fn default_line_port() -> (r: u16)
    ensures
        r == 18791,
{
    18791
}

pub fn default_reconnect() -> (r: u64)
    ensures
        r == 5,
{
    5
}

pub fn default_maixcam_port() -> (r: u16)
    ensures
        r == 18790,
{
    18790
}

pub fn default_gateway_host() -> (r: String)
    ensures
        r@ == "0.0.0.0"@,
{
    crate::text::string_from_chars(&crate::text::chars_of("0.0.0.0"))
}

pub fn default_gateway_port() -> (r: u16)
    ensures
        r == 18790,
{
    18790
}

pub fn default_max_results() -> (r: usize)
    ensures
        r == 5,
{
    5
}

pub fn default_heartbeat_interval() -> (r: u64)
    ensures
        r == 30,
{
    30
}

impl GatewayConfig {
    /// The gateway's defaults: listen on every interface.
    pub fn default_values() -> (r: GatewayConfig)
        ensures
            r.host@ == "0.0.0.0"@,
            r.port == 18790,
    {
        GatewayConfig { host: default_gateway_host(), port: default_gateway_port() }
    }
}

impl HeartbeatConfig {
    /// The heartbeat's defaults: enabled, every thirty time units.
    pub fn default_values() -> (r: HeartbeatConfig)
        ensures
            r.enabled,
            r.interval == 30,
    {
        HeartbeatConfig { enabled: true, interval: default_heartbeat_interval() }
    }
}

} // verus!
