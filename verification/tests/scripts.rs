use bettercpt::scripts::{
    check_module_syntax, config_update_from_text, config_update_script, drop_event_script, fire_event_script, set_plugin_id_script,
    try_fire_event_script, ScriptError,
};

#[test]
fn module_syntax_is_refused() {
    assert!(check_module_syntax("createRect({width: 1});\nconsole.log('x');").is_ok());
    assert_eq!(
        check_module_syntax("var a = 1;\n   import x from 'y';  \r\nexport default 1;"),
        Err(ScriptError::ModuleSyntax("import x from 'y';".to_string()))
    );
    assert_eq!(
        check_module_syntax("export const a = 1;"),
        Err(ScriptError::ModuleSyntax("export const a = 1;".to_string()))
    );
    assert!(check_module_syntax("var importer = 1;\nimport_thing();").is_ok());
    assert!(check_module_syntax("").is_ok());
}

#[test]
fn event_scripts_escape_quotes() {
    assert_eq!(fire_event_script("w'1", "onClick"), "__fireEvent('w\\'1', 'onClick');");
    assert_eq!(set_plugin_id_script("@a/b"), "globalThis.__pluginId = '@a/b';");
    assert_eq!(
        try_fire_event_script("widget_1", "onHover"),
        "(function() { var w = globalThis.__widgets['widget_1']; if (w) { var cb = w['_onHover']; if (typeof cb === 'function') cb(); return true; } return false; })()"
    );
}

#[test]
fn drop_and_config_scripts() {
    assert_eq!(
        drop_event_script("w1", "[\"C:/a.txt\"]"),
        "(function(){ var w=globalThis.__widgets['w1']; if(w&&typeof w._onDrop==='function') w._onDrop([\"C:/a.txt\"]); })()"
    );
    assert_eq!(
        config_update_script("{\"size\":3}"),
        "(function(){ var cfg={\"size\":3}; for(var k in cfg){ config[k]=cfg[k]; } if(typeof onConfigChange==='function') onConfigChange(); })()"
    );
}

#[test]
fn configuration_text_is_printed_again_compactly() {
    let s = config_update_from_text("{ \"theme\" : \"dark\" }").unwrap();
    assert!(s.starts_with("(function(){ var cfg={\"theme\":\"dark\"};"));
    assert!(config_update_from_text("{ not json").is_none());
}
