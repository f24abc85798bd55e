//! Document templates: `{{key}}` placeholders filled in from the data of
//! an endpoint, an error code or a new repository.
use crate::text::{chars_of, contains, lemma_replace_absent, replace, replace_chars, str_eq, string_of};
use vstd::prelude::*;

verus! {

/// The built-in INFO.md template of an endpoint.
pub open spec fn endpoint_template() -> Seq<char> {
    "# {{endpoint_path}}\n\n## Endpoint Information\n- **Function Name**: {{function_name}}\n- **Path**: {{endpoint_path}}\n- **Category**: {{category}}\n- **Version**: {{version}}\n- **Status**: {{status}}\n- **Created At**: {{created_at}}\n- **Updated At**: {{updated_at}}\n\n## HTTP Methods\n\n### {{method}}\n\n#### Description\n{{description}}\n\n#### Request Parameters\n| Parameter | Type | Required | Description |\n|-----------|------|----------|-------------|\n{{request_params}}\n\n#### Request Body\n```json\n{{request_body}}\n```\n\n#### Headers\n| Header | Required | Description |\n|--------|----------|-------------|\n{{headers}}\n\n#### Response\n```json\n{{response}}\n```\n\n#### Error Codes\n{{error_codes}}\n\n---\n\n## Change History\n- {{created_at}}: Initial creation\n"@
}

/// The built-in ERROR.md template of an error code.
pub open spec fn error_template() -> Seq<char> {
    "# {{error_code}} - {{error_name}}\n\n## Basic Information\n- **Error Code**: {{error_code}}\n- **HTTP Status**: {{http_status}}\n- **Created**: {{created_at}}\n\n## Description\n{{description}}\n\n## Possible Causes\n{{causes}}\n\n## Solutions\n{{solutions}}\n\n## Related Endpoints\n{{related_endpoints}}\n\n## Change History\n- {{created_at}}: Initial definition\n"@
}

/// The built-in README.md template of a repository.
pub open spec fn init_template() -> Seq<char> {
    "# API Documentation\n\n## Overview\nThis repository contains API documentation managed by ARM (API Routes Manager).\n\n## Structure\n```\napi/\n└── {{version}}/\n    └── {{category}}/\n        └── {{endpoint}}/\n            └── INFO.md\n\nerror/\n└── error-{code}/\n    └── ERROR.md\n```\n\n## Quick Start\n- List versions: `arm list versions`\n- List endpoints: `arm list endpoints {{version}}-{{category}}`\n- Add endpoint: `arm add-endpoint {{version}}-{{category}} {METHOD} {PATH}`\n- Add error: `arm add-error {CODE} {MESSAGE}`\n\n## Current Version\nSee [VERSION.md](./VERSION.md) for the current API version.\n"@
}

/// The built-in INFO.md template of an endpoint, in Chinese.
pub open spec fn endpoint_template_zh() -> Seq<char> {
    "# {{endpoint_path}}\n\n## 端点信息\n- **函数名**: {{function_name}}\n- **路径**: {{endpoint_path}}\n- **分类**: {{category}}\n- **版本**: {{version}}\n- **状态**: {{status}}\n- **创建时间**: {{created_at}}\n- **更新时间**: {{updated_at}}\n\n## HTTP 方法\n\n### {{method}}\n\n#### 描述\n{{description}}\n\n#### 请求参数\n| 参数名 | 类型 | 必填 | 说明 |\n|--------|------|------|------|\n{{request_params}}\n\n#### 请求体\n```json\n{{request_body}}\n```\n\n#### 请求头\n| 请求头 | 必填 | 说明 |\n|--------|------|------|\n{{headers}}\n\n#### 响应\n```json\n{{response}}\n```\n\n#### 错误码\n{{error_codes}}\n\n---\n\n## 变更历史\n- {{created_at}}: 初始创建\n"@
}

/// The built-in ERROR.md template of an error code, in Chinese.
pub open spec fn error_template_zh() -> Seq<char> {
    "# {{error_code}} - {{error_name}}\n\n## 基本信息\n- **错误码**: {{error_code}}\n- **HTTP 状态码**: {{http_status}}\n- **创建时间**: {{created_at}}\n\n## 描述\n{{description}}\n\n## 可能原因\n{{causes}}\n\n## 解决方案\n{{solutions}}\n\n## 相关端点\n{{related_endpoints}}\n\n## 变更历史\n- {{created_at}}: 初始定义\n"@
}

/// The built-in README.md template of a repository, in Chinese.
pub open spec fn init_template_zh() -> Seq<char> {
    "# API 文档\n\n## 概述\n本仓库使用 ARM (API Routes Manager) 管理的 API 文档。\n\n## 结构\n```\napi/\n└── {{version}}/\n    └── {{category}}/\n        └── {{endpoint}}/\n            └── INFO.md\n\nerror/\n└── error-{code}/\n    └── ERROR.md\n```\n\n## 快速开始\n- 列出版本: `arm list versions`\n- 列出端点: `arm list endpoints {{version}}-{{category}}`\n- 添加端点: `arm add-endpoint {{version}}-{{category}} {方法} {路径}`\n- 添加错误码: `arm add-error {错误码} {描述}`\n\n## 当前版本\n当前 API 版本请查看 [VERSION.md](./VERSION.md)。\n"@
}

/// The placeholder of a key.
pub open spec fn placeholder(key: Seq<char>) -> Seq<char> {
    "{{"@ + key + "}}"@
}

/// The template with each key's placeholder replaced by its value, one key
/// after another in the order given.
pub open spec fn render(template: Seq<char>, vars: Seq<(Seq<char>, Seq<char>)>) -> Seq<char>
    decreases vars.len(),
{
    if vars.len() == 0 {
        template
    } else {
        replace(render(template, vars.drop_last()), placeholder(vars.last().0), vars.last().1)
    }
}

/// The key-value views of a list of string pairs.
pub open spec fn var_views(v: Seq<(String, String)>) -> Seq<(Seq<char>, Seq<char>)> {
    v.map_values(|p: (String, String)| (p.0@, p.1@))
}

/// Fills a template in.
pub struct TemplateManager {
    lang: String,
    config_dir: String,
}

impl TemplateManager {
    /// The language of the templates.
    pub closed spec fn lang_view(self) -> Seq<char> {
        self.lang@
    }

    /// The configuration directory the templates are read from.
    pub closed spec fn config_dir_view(self) -> Seq<char> {
        self.config_dir@
    }

    /// A manager for the configured language, Chinese where none is set.
    pub fn new(user_language: Option<&str>, config_dir: &str) -> (m: TemplateManager)
        ensures
            m.lang_view() == match user_language {
                Some(l) => l@,
                None => "zh"@,
            },
            m.config_dir_view() == config_dir@,
    {
        let lang = match user_language {
            Some(l) => l.to_string(),
            None => "zh".to_string(),
        };
        TemplateManager { lang, config_dir: config_dir.to_string() }
    }

    /// A manager for the given language.
    pub fn with_language(lang: &str, config_dir: &str) -> (m: TemplateManager)
        ensures
            m.lang_view() == lang@,
            m.config_dir_view() == config_dir@,
    {
        TemplateManager { lang: lang.to_string(), config_dir: config_dir.to_string() }
    }

    /// The language of the templates.
    pub fn language(&self) -> (r: &str)
        ensures
            r@ == self.lang_view(),
    {
        self.lang.as_str()
    }

    /// The configuration directory the templates are read from.
    pub fn config_dir(&self) -> (r: &str)
        ensures
            r@ == self.config_dir_view(),
    {
        self.config_dir.as_str()
    }

    /// The built-in template of the given name (`endpoint`, `error` or
    /// `init`); empty for any other name.
    pub fn get_builtin_template(&self, name: &str) -> (r: String)
        ensures
            r@ == builtin_template(name@),
    {
        if str_eq(name, "endpoint") {
            self.builtin_endpoint_template()
        } else if str_eq(name, "error") {
            self.builtin_error_template()
        } else if str_eq(name, "init") {
            self.builtin_init_template()
        } else {
            String::new()
        }
    }

    /// The built-in INFO.md template of an endpoint.
    pub fn builtin_endpoint_template(&self) -> (r: String)
        ensures
            r@ == endpoint_template(),
    {
        "# {{endpoint_path}}\n\n## Endpoint Information\n- **Function Name**: {{function_name}}\n- **Path**: {{endpoint_path}}\n- **Category**: {{category}}\n- **Version**: {{version}}\n- **Status**: {{status}}\n- **Created At**: {{created_at}}\n- **Updated At**: {{updated_at}}\n\n## HTTP Methods\n\n### {{method}}\n\n#### Description\n{{description}}\n\n#### Request Parameters\n| Parameter | Type | Required | Description |\n|-----------|------|----------|-------------|\n{{request_params}}\n\n#### Request Body\n```json\n{{request_body}}\n```\n\n#### Headers\n| Header | Required | Description |\n|--------|----------|-------------|\n{{headers}}\n\n#### Response\n```json\n{{response}}\n```\n\n#### Error Codes\n{{error_codes}}\n\n---\n\n## Change History\n- {{created_at}}: Initial creation\n".to_string()
    }

    /// The built-in ERROR.md template of an error code.
    pub fn builtin_error_template(&self) -> (r: String)
        ensures
            r@ == error_template(),
    {
        "# {{error_code}} - {{error_name}}\n\n## Basic Information\n- **Error Code**: {{error_code}}\n- **HTTP Status**: {{http_status}}\n- **Created**: {{created_at}}\n\n## Description\n{{description}}\n\n## Possible Causes\n{{causes}}\n\n## Solutions\n{{solutions}}\n\n## Related Endpoints\n{{related_endpoints}}\n\n## Change History\n- {{created_at}}: Initial definition\n".to_string()
    }

    /// The built-in README.md template of a repository.
    pub fn builtin_init_template(&self) -> (r: String)
        ensures
            r@ == init_template(),
    {
        "# API Documentation\n\n## Overview\nThis repository contains API documentation managed by ARM (API Routes Manager).\n\n## Structure\n```\napi/\n└── {{version}}/\n    └── {{category}}/\n        └── {{endpoint}}/\n            └── INFO.md\n\nerror/\n└── error-{code}/\n    └── ERROR.md\n```\n\n## Quick Start\n- List versions: `arm list versions`\n- List endpoints: `arm list endpoints {{version}}-{{category}}`\n- Add endpoint: `arm add-endpoint {{version}}-{{category}} {METHOD} {PATH}`\n- Add error: `arm add-error {CODE} {MESSAGE}`\n\n## Current Version\nSee [VERSION.md](./VERSION.md) for the current API version.\n".to_string()
    }

    /// The built-in INFO.md template of an endpoint, in Chinese.
    pub fn builtin_endpoint_template_zh(&self) -> (r: String)
        ensures
            r@ == endpoint_template_zh(),
    {
        "# {{endpoint_path}}\n\n## 端点信息\n- **函数名**: {{function_name}}\n- **路径**: {{endpoint_path}}\n- **分类**: {{category}}\n- **版本**: {{version}}\n- **状态**: {{status}}\n- **创建时间**: {{created_at}}\n- **更新时间**: {{updated_at}}\n\n## HTTP 方法\n\n### {{method}}\n\n#### 描述\n{{description}}\n\n#### 请求参数\n| 参数名 | 类型 | 必填 | 说明 |\n|--------|------|------|------|\n{{request_params}}\n\n#### 请求体\n```json\n{{request_body}}\n```\n\n#### 请求头\n| 请求头 | 必填 | 说明 |\n|--------|------|------|\n{{headers}}\n\n#### 响应\n```json\n{{response}}\n```\n\n#### 错误码\n{{error_codes}}\n\n---\n\n## 变更历史\n- {{created_at}}: 初始创建\n".to_string()
    }

    /// The built-in ERROR.md template of an error code, in Chinese.
    pub fn builtin_error_template_zh(&self) -> (r: String)
        ensures
            r@ == error_template_zh(),
    {
        "# {{error_code}} - {{error_name}}\n\n## 基本信息\n- **错误码**: {{error_code}}\n- **HTTP 状态码**: {{http_status}}\n- **创建时间**: {{created_at}}\n\n## 描述\n{{description}}\n\n## 可能原因\n{{causes}}\n\n## 解决方案\n{{solutions}}\n\n## 相关端点\n{{related_endpoints}}\n\n## 变更历史\n- {{created_at}}: 初始定义\n".to_string()
    }

    /// The built-in README.md template of a repository, in Chinese.
    pub fn builtin_init_template_zh(&self) -> (r: String)
        ensures
            r@ == init_template_zh(),
    {
        "# API 文档\n\n## 概述\n本仓库使用 ARM (API Routes Manager) 管理的 API 文档。\n\n## 结构\n```\napi/\n└── {{version}}/\n    └── {{category}}/\n        └── {{endpoint}}/\n            └── INFO.md\n\nerror/\n└── error-{code}/\n    └── ERROR.md\n```\n\n## 快速开始\n- 列出版本: `arm list versions`\n- 列出端点: `arm list endpoints {{version}}-{{category}}`\n- 添加端点: `arm add-endpoint {{version}}-{{category}} {方法} {路径}`\n- 添加错误码: `arm add-error {错误码} {描述}`\n\n## 当前版本\n当前 API 版本请查看 [VERSION.md](./VERSION.md)。\n".to_string()
    }

    /// The template with each key's placeholder replaced by its value.
    pub fn render_template(&self, template: &str, vars: &Vec<(String, String)>) -> (r: String)
        ensures
            r@ == render(template@, var_views(vars@)),
    {
        let mut result = chars_of(template);
        let mut i: usize = 0;
        while i < vars.len()
            invariant
                i <= vars.len(),
                result@ == render(template@, var_views(vars@).take(i as int)),
            decreases vars.len() - i,
        {
            let ghost t = var_views(vars@).take(i + 1);
            assert(t.drop_last() =~= var_views(vars@).take(i as int));
            let mut p = String::new();
            p.append("{{");
            p.append(vars[i].0.as_str());
            p.append("}}");
            proof {
                reveal_strlit("{{");
            }
            result = replace_chars(&result, &chars_of(p.as_str()), &chars_of(vars[i].1.as_str()));
            i = i + 1;
        }
        assert(var_views(vars@).take(vars.len() as int) =~= var_views(vars@));
        string_of(&result)
    }

    /// The template to use: the one given, or else the built-in one.
    fn template_or_builtin(&self, custom: Option<&str>, name: &str) -> (r: String)
        ensures
            r@ == match custom {
                Some(c) => c@,
                None => builtin_template(name@),
            },
    {
        match custom {
            Some(c) => c.to_string(),
            None => self.get_builtin_template(name),
        }
    }

    /// An endpoint's INFO.md: the template read from the configuration
    /// directory where there is one (`custom`), else the built-in one,
    /// filled in from `data`.
    pub fn render_endpoint(&self, data: &EndpointTemplateData, custom: Option<&str>) -> (r: String)
        ensures
            r@ == render(
                match custom {
                    Some(c) => c@,
                    None => endpoint_template(),
                },
                endpoint_vars(*data),
            ),
    {
        let template = self.template_or_builtin(custom, "endpoint");
        self.render_template(template.as_str(), &data.to_map())
    }

    /// An error code's ERROR.md, as `render_endpoint` does it.
    pub fn render_error(&self, data: &ErrorTemplateData, custom: Option<&str>) -> (r: String)
        ensures
            r@ == render(
                match custom {
                    Some(c) => c@,
                    None => error_template(),
                },
                error_vars(*data),
            ),
    {
        proof {
            reveal_strlit("endpoint");
            reveal_strlit("error");
            reveal_strlit("init");
            assert("error"@.len() != "endpoint"@.len());
            assert("init"@.len() != "endpoint"@.len());
            assert("init"@.len() != "error"@.len());
        }
        let template = self.template_or_builtin(custom, "error");
        self.render_template(template.as_str(), &data.to_map())
    }

    /// A repository's README.md, as `render_endpoint` does it.
    pub fn render_init(&self, data: &InitTemplateData, custom: Option<&str>) -> (r: String)
        ensures
            r@ == render(
                match custom {
                    Some(c) => c@,
                    None => init_template(),
                },
                init_vars(*data),
            ),
    {
        proof {
            reveal_strlit("endpoint");
            reveal_strlit("error");
            reveal_strlit("init");
            assert("error"@.len() != "endpoint"@.len());
            assert("init"@.len() != "endpoint"@.len());
            assert("init"@.len() != "error"@.len());
        }
        let template = self.template_or_builtin(custom, "init");
        self.render_template(template.as_str(), &data.to_map())
    }
}

/// The built-in template of a name.
pub open spec fn builtin_template(name: Seq<char>) -> Seq<char> {
    if name == "endpoint"@ {
        endpoint_template()
    } else if name == "error"@ {
        error_template()
    } else if name == "init"@ {
        init_template()
    } else {
        seq![]
    }
}

/// Data for the endpoint template.
pub struct EndpointTemplateData {
    pub function_name: String,
    pub endpoint_path: String,
    pub category: String,
    pub version: String,
    pub status: String,
    pub created_at: String,
    pub updated_at: String,
    pub method: String,
    pub description: String,
    pub request_params: String,
    pub request_body: String,
    pub headers: String,
    pub response: String,
    pub error_codes: String,
}

/// Data for the error template.
pub struct ErrorTemplateData {
    pub error_code: String,
    pub error_name: String,
    pub http_status: String,
    pub created_at: String,
    pub description: String,
    pub causes: String,
    pub solutions: String,
    pub related_endpoints: String,
}

/// Data for the init template.
pub struct InitTemplateData {
    pub version: String,
    pub category: String,
    pub endpoint: String,
}

/// The keys and values of endpoint data, in the order they are filled in.
pub open spec fn endpoint_vars(d: EndpointTemplateData) -> Seq<(Seq<char>, Seq<char>)> {
    seq![
        ("function_name"@, d.function_name@),
        ("endpoint_path"@, d.endpoint_path@),
        ("category"@, d.category@),
        ("version"@, d.version@),
        ("status"@, d.status@),
        ("created_at"@, d.created_at@),
        ("updated_at"@, d.updated_at@),
        ("method"@, d.method@),
        ("description"@, d.description@),
        ("request_params"@, d.request_params@),
        ("request_body"@, d.request_body@),
        ("headers"@, d.headers@),
        ("response"@, d.response@),
        ("error_codes"@, d.error_codes@),
    ]
}

/// The keys and values of error data, in the order they are filled in.
pub open spec fn error_vars(d: ErrorTemplateData) -> Seq<(Seq<char>, Seq<char>)> {
    seq![
        ("error_code"@, d.error_code@),
        ("error_name"@, d.error_name@),
        ("http_status"@, d.http_status@),
        ("created_at"@, d.created_at@),
        ("description"@, d.description@),
        ("causes"@, d.causes@),
        ("solutions"@, d.solutions@),
        ("related_endpoints"@, d.related_endpoints@),
    ]
}

/// The keys and values of init data, in the order they are filled in.
pub open spec fn init_vars(d: InitTemplateData) -> Seq<(Seq<char>, Seq<char>)> {
    seq![("version"@, d.version@), ("category"@, d.category@), ("endpoint"@, d.endpoint@)]
}

fn pair(k: &str, v: &String) -> (r: (String, String))
    ensures
        r.0@ == k@,
        r.1@ == v@,
{
    (k.to_string(), v.clone())
}

impl EndpointTemplateData {
    /// The keys and values, in the order they are filled in.
    pub fn to_map(&self) -> (r: Vec<(String, String)>)
        ensures
            var_views(r@) == endpoint_vars(*self),
    {
        let mut m: Vec<(String, String)> = Vec::new();
        m.push(pair("function_name", &self.function_name));
        m.push(pair("endpoint_path", &self.endpoint_path));
        m.push(pair("category", &self.category));
        m.push(pair("version", &self.version));
        m.push(pair("status", &self.status));
        m.push(pair("created_at", &self.created_at));
        m.push(pair("updated_at", &self.updated_at));
        m.push(pair("method", &self.method));
        m.push(pair("description", &self.description));
        m.push(pair("request_params", &self.request_params));
        m.push(pair("request_body", &self.request_body));
        m.push(pair("headers", &self.headers));
        m.push(pair("response", &self.response));
        m.push(pair("error_codes", &self.error_codes));
        assert(var_views(m@) =~= endpoint_vars(*self));
        m
    }
}

impl ErrorTemplateData {
    /// The keys and values, in the order they are filled in.
    pub fn to_map(&self) -> (r: Vec<(String, String)>)
        ensures
            var_views(r@) == error_vars(*self),
    {
        let mut m: Vec<(String, String)> = Vec::new();
        m.push(pair("error_code", &self.error_code));
        m.push(pair("error_name", &self.error_name));
        m.push(pair("http_status", &self.http_status));
        m.push(pair("created_at", &self.created_at));
        m.push(pair("description", &self.description));
        m.push(pair("causes", &self.causes));
        m.push(pair("solutions", &self.solutions));
        m.push(pair("related_endpoints", &self.related_endpoints));
        assert(var_views(m@) =~= error_vars(*self));
        m
    }
}

impl InitTemplateData {
    /// The keys and values, in the order they are filled in.
    pub fn to_map(&self) -> (r: Vec<(String, String)>)
        ensures
            var_views(r@) == init_vars(*self),
    {
        let mut m: Vec<(String, String)> = Vec::new();
        m.push(pair("version", &self.version));
        m.push(pair("category", &self.category));
        m.push(pair("endpoint", &self.endpoint));
        assert(var_views(m@) =~= init_vars(*self));
        m
    }
}

/// Filling in a template that holds none of the placeholders leaves it as
/// it is.
pub proof fn law_render_without_placeholders(template: Seq<char>, vars: Seq<(Seq<char>, Seq<char>)>)
    requires
        forall|k: int| 0 <= k < vars.len() ==> !contains(template, placeholder(#[trigger] vars[k].0)),
    ensures
        render(template, vars) == template,
    decreases vars.len(),
{
    if vars.len() > 0 {
        assert(forall|k: int| 0 <= k < vars.len() - 1 ==> vars.drop_last()[k] == vars[k]);
        law_render_without_placeholders(template, vars.drop_last());
        assert(!contains(template, placeholder(vars[vars.len() - 1].0)));
        lemma_replace_absent(template, placeholder(vars.last().0), vars.last().1);
    }
}

} // verus!
