//! The PowerShell scripts that collectors run.
use vstd::prelude::*;

verus! {

/// Lists the updates of Windows that are available and those that are installed.
pub const WINUPDATE_SCRIPT: &'static str = r#"
$ErrorActionPreference='SilentlyContinue'
$available=@()
try {
  $session = New-Object -ComObject Microsoft.Update.Session
  $res = $session.CreateUpdateSearcher().Search("IsInstalled=0 and IsHidden=0")
  $available = @($res.Updates | Select-Object -First 200 | ForEach-Object {
    [PSCustomObject]@{
      title = [string]$_.Title
      kb = (@($_.KBArticleIDs) -join ',')
      severity = [string]$_.MsrcSeverity
      size_mb = [math]::Round(($_.MaxDownloadSize/1MB),1)
      categories = ((@($_.Categories) | ForEach-Object { $_.Name }) -join ', ')
      reboot = [bool]$_.InstallationBehavior.RebootBehavior
      browse_only = [bool]$_.BrowseOnly
      auto_select = [bool]$_.AutoSelectOnWebSites
      classifications = @(@($_.Categories) | Where-Object { [string]$_.Type -eq 'UpdateClassification' } | ForEach-Object { [string]$_.Name })
    }
  })
} catch {}
$installed = @(Get-HotFix | Sort-Object InstalledOn -Descending | Select-Object -First 50 | ForEach-Object {
  [PSCustomObject]@{ kb=[string]$_.HotFixID; description=[string]$_.Description; installed= if ($_.InstalledOn) { $_.InstalledOn.ToString('yyyy-MM-dd') } else { '' } }
})
$pending = $false
try { $pending = [bool](New-Object -ComObject Microsoft.Update.SystemInfo).RebootRequired } catch {}
[PSCustomObject]@{ schema=2; available=$available; installed=$installed; pending_reboot=$pending } | ConvertTo-Json -Depth 4 -Compress
"#;

/// Reads the state of Microsoft Defender and the threats that it found.
pub const DEFENDER_SCRIPT: &'static str = r#"
$ErrorActionPreference='SilentlyContinue'
$s = Get-MpComputerStatus
if (-not $s) { '{"available":false}'; exit }
# Scan in progress: the scan times in Get-MpComputerStatus only update on completion, so detect a
# live scan from the Defender operational log instead - the latest scan event being a "started"
# (1000) with no later "finished"/"stopped" (1001/1002) means a scan is running.
$scan_running=$false; $scan_type=''; $scan_start=''
$ev = Get-WinEvent -FilterHashtable @{LogName='Microsoft-Windows-Windows Defender/Operational'; Id=1000,1001,1002} -MaxEvents 1 -ErrorAction SilentlyContinue
if ($ev -and $ev.Id -eq 1000) {
  $scan_running=$true
  $scan_start=$ev.TimeCreated.ToString('yyyy-MM-dd HH:mm:ss')
  if ($ev.Message -match 'Full Scan') { $scan_type='full' } elseif ($ev.Message -match 'Quick Scan') { $scan_type='quick' }
}
# Days since the most recent completed scan (quick or full), computed in the device's local time;
# -1 when never scanned. Drives the fleet-health "scan stale" warning.
$lastScan = @($s.QuickScanEndTime, $s.FullScanEndTime) | Where-Object { $_ -and $_.Year -gt 2000 } | Sort-Object -Descending | Select-Object -First 1
$scan_age = if ($lastScan) { [int]((New-TimeSpan -Start $lastScan -End (Get-Date)).TotalDays) } else { -1 }
$threats = @(Get-MpThreat | Sort-Object InitialDetectionTime -Descending | Select-Object -First 50 | ForEach-Object {
  [PSCustomObject]@{
    name = [string]$_.ThreatName
    severity = [int]$_.SeverityID
    active = [bool]$_.IsActive
    detected = if ($_.InitialDetectionTime) { $_.InitialDetectionTime.ToString('yyyy-MM-dd HH:mm:ss') } else { '' }
  }
})
[PSCustomObject]@{
  available = $true
  rtp = [bool]$s.RealTimeProtectionEnabled
  am_service = [bool]$s.AMServiceEnabled
  antivirus = [bool]$s.AntivirusEnabled
  antispyware = [bool]$s.AntispywareEnabled
  tamper = [bool]$s.IsTamperProtected
  av_sig_version = [string]$s.AntivirusSignatureVersion
  av_sig_age = [int]$s.AntivirusSignatureAge
  as_sig_version = [string]$s.AntispywareSignatureVersion
  as_sig_age = [int]$s.AntispywareSignatureAge
  engine = [string]$s.AMEngineVersion
  product = [string]$s.AMProductVersion
  last_quick = if ($s.QuickScanEndTime) { $s.QuickScanEndTime.ToString('yyyy-MM-dd HH:mm:ss') } else { '' }
  last_full = if ($s.FullScanEndTime) { $s.FullScanEndTime.ToString('yyyy-MM-dd HH:mm:ss') } else { '' }
  scan_running = $scan_running
  scan_type = $scan_type
  scan_start = $scan_start
  scan_age_days = $scan_age
  threats = $threats
} | ConvertTo-Json -Depth 4 -Compress
"#;

/// Finds the roles that a server has and that can be queried.
pub const ROLES_SCRIPT: &'static str = r#"$ErrorActionPreference='SilentlyContinue'
$r=@()
$svc=@{}
foreach($s in 'NTDS','DNS','DHCPServer','vmms','TermService','Duplicati'){ $svc[$s]=[bool](Get-Service -Name $s -ErrorAction SilentlyContinue) }
function HasMod($n){ [bool](Get-Module -ListAvailable -Name $n -ErrorAction SilentlyContinue) }
if($svc['NTDS']){ $r+='addc'; if(HasMod 'GroupPolicy'){ $r+='gpo' } }
if($svc['DNS'] -and (HasMod 'DnsServer')){ $r+='dns' }
if($svc['DHCPServer'] -and (HasMod 'DhcpServer')){ $r+='dhcp' }
if($svc['vmms'] -and (HasMod 'Hyper-V')){ $r+='hyperv' }
if($svc['TermService']){ try { if((Get-CimInstance -Namespace root\cimv2\TerminalServices -ClassName Win32_TerminalServiceSetting -ErrorAction Stop).TerminalServerMode -eq 1){ $r+='rdsh' } } catch {} }
if($svc['Duplicati']){ $r+='duplicati' }
$sys=@('SYSVOL','NETLOGON','PRINT$','FAX$','CertEnroll')
$us=@(Get-SmbShare -ErrorAction SilentlyContinue | Where-Object { -not $_.Special -and $_.ShareType -eq 'FileSystemDirectory' -and ($sys -notcontains $_.Name) })
if($us.Count -ge 1){ $r+='fileserver' }
$sp=@(Get-Printer -ErrorAction SilentlyContinue | Where-Object { $_.Shared })
if($sp.Count -ge 1){ $r+='print' }
try{
  $mfr=[string](Get-CimInstance Win32_ComputerSystem -ErrorAction Stop).Manufacturer
  if($mfr -like 'Dell*'){
    $nic=@(Get-NetAdapter -ErrorAction SilentlyContinue | Where-Object { $_.InterfaceDescription -match 'Remote NDIS' -and $_.Status -eq 'Up' })
    if($nic.Count -ge 1){ $r+='idrac' }
  }
}catch{}
@($r) | Sort-Object -Unique | ConvertTo-Json -Compress"#;

/// Lists the services.
pub const SERVICES_SCRIPT: &'static str = r#"@(Get-CimInstance Win32_Service -ErrorAction Stop |
  ForEach-Object { [pscustomobject]@{ n=[string]$_.Name; d=[string]$_.DisplayName; s=([string]$_.State).ToLower() } }) |
  ConvertTo-Json -Depth 3 -Compress"#;

/// Lists the installed fixes.
pub const HOTFIX_SCRIPT: &'static str =
    "Get-CimInstance Win32_QuickFixEngineering | Select-Object HotFixID,@{n='InstalledOn';e={$_.InstalledOn.ToString('yyyy-MM-dd')}} | ConvertTo-Json -Compress";

/// Reads the state of the services that are watched: what stands before their names.
pub const WATCHED_HEAD: &'static str = "Get-Service -Name ";

/// Reads the state of the services that are watched: what stands behind their names.
pub const WATCHED_TAIL: &'static str =
    " -ErrorAction SilentlyContinue | Select-Object @{n='name';e={$_.Name}},@{n='status';e={$_.Status.ToString()}},@{n='start';e={$_.StartType.ToString()}} | ConvertTo-Json -Compress";

} // verus!
